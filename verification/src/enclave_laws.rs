//! What an enclave has to show, and what is sealed to it and read from it, spelled out byte by
//! byte and from the outside functions.

use vstd::prelude::*;
use vstd::utf8::encode_utf8;

use crate::attestation::gpu_payload_of;
use crate::attestation::jwt_payload;
use crate::attestation::nras_outcome;
use crate::attestation::tdx_outcome;
use crate::attestation::told;
use crate::attestation::top_payload_of;
use crate::chutes::InstanceFacts;
use crate::chutes_call;
use crate::chutes_call::Findings;
use crate::chutes_e2ee;
use crate::json::elements_at;
use crate::json::text_at;
use crate::json::truth_at;
use crate::json::JsonValue;
use crate::nearai;
use crate::nearai::key_outcome;
use crate::nearai::quote_outcome;
use crate::nearai::report_outcome;
use crate::nearai_e2ee::clamped_secret;
use crate::nearai_e2ee::law_hex_read_back;
use crate::nearai_e2ee::v2_outcome;
use crate::nearai_e2ee::v2_text;
use crate::nearai_tls::is_pinned;
use crate::nearai_tls::may_be_served;
use crate::primitives::base64_decoded;
use crate::primitives::base64url_decoded;
use crate::primitives::chacha_opened;
use crate::primitives::chacha_sealed;
use crate::primitives::gunzipped;
use crate::primitives::gzipped;
use crate::primitives::hex_bytes;
use crate::primitives::hex_of;
use crate::primitives::hkdf_sha256_of;
use crate::primitives::is_hex;
use crate::primitives::mlkem_decapsulated;
use crate::primitives::montgomery_of;
use crate::primitives::sha256_of;
use crate::primitives::sha512_of;
use crate::primitives::x25519_shared_of;
use crate::primitives::xchacha_opened;
use crate::primitives::xchacha_sealed;
use crate::request_laws::first_says;
use crate::request_laws::law_first_entry_counts;
use crate::request_laws::says_nothing;
use crate::text::find_char;
use crate::text::lemma_find_char;
use crate::text::split_on;

verus! {

// ---------------------------------------------------------------------------
// Quotes
// ---------------------------------------------------------------------------

/// Whether the data that a quote reports begins with some bytes.
pub open spec fn reports(quote: Seq<u8>, data: Seq<u8>) -> bool {
    data.len() <= 64 && forall|i: int| 0 <= i < data.len() ==> quote[568 + i] == #[trigger] data[i]
}

/// A quote passes exactly where it is whole, its signature holds, the enclave cannot be
/// debugged, and the data that it reports begins with what it must.
pub proof fn law_quotes_pass_exactly(
    quote: Seq<u8>,
    prefix: Seq<u8>,
    hardware: Result<(), Seq<char>>,
)
    ensures
        tdx_outcome(quote, prefix, hardware) is Ok <==> quote.len() >= 632 && hardware is Ok
            && quote[168] % 2 == 0 && reports(quote, prefix),
        quote.len() < 632 ==> tdx_outcome(quote, prefix, hardware) == Err::<(), Seq<char>>(
            "FATAL: TDX Quote is too short to contain REPORTDATA"@,
        ),
        quote.len() >= 632 && hardware is Err ==> tdx_outcome(quote, prefix, hardware) == hardware,
        quote.len() >= 632 && hardware is Ok && quote[168] % 2 == 1 ==> tdx_outcome(
            quote,
            prefix,
            hardware,
        ) == Err::<(), Seq<char>>(
            "FATAL: Intel TDX Enclave is running in DEBUG mode. Memory can be dumped!"@,
        ),
        quote.len() >= 632 && hardware is Ok && quote[168] % 2 == 0 && prefix.len() <= 64
            && !reports(quote, prefix) ==> tdx_outcome(quote, prefix, hardware) == Err::<
            (),
            Seq<char>,
        >("FATAL: Intel TDX Key/TLS/Nonce binding verification failed! Possible MITM attack."@),
{
    if quote.len() >= 632 && prefix.len() <= 64 {
        lemma_reports(quote, prefix);
    }
}

proof fn lemma_reports(quote: Seq<u8>, prefix: Seq<u8>)
    requires
        quote.len() >= 632,
        prefix.len() <= 64,
    ensures
        reports(quote, prefix) <==> quote.subrange(568, 632).take(prefix.len() as int) == prefix,
{
    let d = quote.subrange(568, 632).take(prefix.len() as int);
    if reports(quote, prefix) {
        assert forall|i: int| 0 <= i < prefix.len() implies d[i] == prefix[i] by {
            assert(quote[568 + i] == prefix[i]);
        }
        assert(d =~= prefix);
    }
    if d == prefix {
        assert forall|i: int| 0 <= i < prefix.len() implies quote[568 + i] == #[trigger] prefix[i] by {
            assert(d[i] == quote[568 + i]);
        }
    }
}

/// A quote of a model's enclave passes exactly where it is signed, cannot be debugged,
/// reports the digest of the key and the certificate and behind it the nonce, and was made by
/// the very software that is shown, where any is shown and the quote tells.
pub proof fn law_model_quotes_pass_exactly(
    quote: Seq<u8>,
    key: Seq<u8>,
    certificate: Seq<u8>,
    nonce: Seq<u8>,
    hardware: Result<(), Seq<char>>,
    compose: Option<Seq<char>>,
)
    requires
        quote.len() >= 632,
        sha256_of(key + certificate).len() == 32,
        nonce.len() == 32,
    ensures
        quote_outcome(quote, key, certificate, nonce, hardware, compose) is Ok <==> {
            &&& hardware is Ok
            &&& quote[168] % 2 == 0
            &&& reports(quote, sha256_of(key + certificate) + nonce)
            &&& compose matches Some(c) ==> (forall|i: int| 232 <= i < 280 ==> quote[i] == 0) || (
            crate::text::has_prefix(
                hex_of(quote.subrange(232, 280)),
                "01"@ + hex_of(sha256_of(encode_utf8(c))),
            ))
        },
{
    let data = sha256_of(key + certificate) + nonce;
    lemma_reports(quote, data);
    assert(quote.subrange(568, 632).take(64) =~= quote.subrange(568, 632));
    let config = quote.subrange(232, 280);
    if nearai::all_zero(config) {
        assert forall|i: int| 232 <= i < 280 implies quote[i] == 0 by {
            assert(config[i - 232] == 0);
        }
    }
    if forall|i: int| 232 <= i < 280 ==> quote[i] == 0 {
        assert(nearai::all_zero(config)) by {
            assert forall|i: int| 0 <= i < config.len() implies #[trigger] config[i] == 0 by {
                assert(quote[232 + i] == 0);
            }
        }
    }
}

/// A report without evidence of any kind yields no key; one with a GPU's evidence that does
/// not hold yields none; and a key that is used is the Montgomery form of the key reported.
pub proof fn law_keys_need_evidence(
    report: JsonValue,
    nonce: Seq<u8>,
    hardware: Result<(), Seq<char>>,
    parsed: Option<JsonValue>,
    gpu: Result<(), Seq<char>>,
)
    ensures
        report_outcome(report) matches Ok(facts) ==> {
            &&& facts.quote is None && facts.gpu is None ==> key_outcome(
                report,
                nonce,
                hardware,
                parsed,
                gpu,
            ) is Err
            &&& facts.gpu is Some && gpu is Err ==> key_outcome(
                report,
                nonce,
                hardware,
                parsed,
                gpu,
            ) is Err
            &&& key_outcome(report, nonce, hardware, parsed, gpu) matches Ok(k) ==> montgomery_of(
                facts.key,
            ) == Some(k.0) && k.1 == facts.fingerprint
            &&& facts.quote is None && facts.gpu is Some && gpu is Ok && montgomery_of(facts.key)
                is Some ==> key_outcome(report, nonce, hardware, parsed, gpu) == Ok::<
                (Seq<u8>, Seq<char>),
                Seq<char>,
            >((montgomery_of(facts.key)->0, facts.fingerprint))
        },
        report_outcome(report) is Err ==> key_outcome(report, nonce, hardware, parsed, gpu) is Err,
{
}

/// A report whose quote passes, and whose GPU's evidence passes if it has any, yields the key;
/// one whose quote does not pass is refused for the quote's own reason.
pub proof fn law_attested_keys_are_used(
    report: JsonValue,
    nonce: Seq<u8>,
    hardware: Result<(), Seq<char>>,
    parsed: Option<JsonValue>,
    gpu: Result<(), Seq<char>>,
    digits: Seq<char>,
    quote: Seq<u8>,
)
    requires
        report_outcome(report) is Ok,
        report_outcome(report)->Ok_0.quote == Some(digits),
        nearai::quote_bytes(digits) == Ok::<Seq<u8>, Seq<char>>(quote),
    ensures
        ({
            let facts = report_outcome(report)->Ok_0;
            let passed = quote_outcome(
                quote,
                facts.key,
                facts.certificate,
                nonce,
                hardware,
                nearai::compose_of(report, parsed),
            );
            let r = key_outcome(report, nonce, hardware, parsed, gpu);
            &&& passed matches Err(e) ==> r == Err::<(Seq<u8>, Seq<char>), Seq<char>>(e)
            &&& passed is Ok && (facts.gpu is None || gpu is Ok) && montgomery_of(facts.key) is Some
                ==> r == Ok::<(Seq<u8>, Seq<char>), Seq<char>>(
                (montgomery_of(facts.key)->0, facts.fingerprint),
            )
            &&& passed is Ok && (facts.gpu is None || gpu is Ok) && montgomery_of(facts.key) is None
                ==> r == Err::<(Seq<u8>, Seq<char>), Seq<char>>("Invalid Ed25519 curve point"@)
        }),
{
}

/// The key of a report is the one that its digits stand for, wherever in the report it is
/// told: as a key before as an address, and on top before further down.
pub proof fn law_reported_keys_are_read(
    report: JsonValue,
    key: Seq<u8>,
    prefixed: bool,
    fingerprint: Seq<char>,
)
    requires
        key.len() == 32,
        is_hex(fingerprint),
        text_at(report, "tls_cert_fingerprint"@) == Some(fingerprint),
        ({
            let shown = if prefixed {
                "0x"@ + hex_of(key)
            } else {
                hex_of(key)
            };
            let top = text_at(report, "signing_public_key"@);
            let address = text_at(report, "signing_address"@);
            ||| top == Some(shown)
            ||| top is None && address == Some(shown)
            ||| top is None && address is None && nearai::nested_text(report, "signing_public_key"@)
                == Some(shown)
            ||| top is None && address is None && nearai::nested_text(report, "signing_public_key"@)
                is None && nearai::nested_text(report, "signing_address"@) == Some(shown)
        }),
    ensures
        report_outcome(report) matches Ok(facts) && facts.key == key && facts.fingerprint
            == fingerprint && facts.certificate == hex_bytes(fingerprint),
{
    law_hex_read_back(key);
    lemma_mark_goes(hex_of(key));
}

/// The evidence of a report is told on top or, where it is not, further down; that of a GPU
/// under either of two names.
pub proof fn law_evidence_is_found(report: JsonValue)
    ensures
        report_outcome(report) matches Ok(facts) ==> {
            let quote = text_at(report, "intel_quote"@);
            let payload = text_at(report, "nvidia_payload"@);
            let other = text_at(report, "nvidia_quote"@);
            let nested = nearai::nested_text(report, "nvidia_payload"@);
            &&& quote is Some ==> facts.quote == quote
            &&& quote is None ==> facts.quote == nearai::nested_text(report, "intel_quote"@)
            &&& payload is Some ==> facts.gpu == payload
            &&& payload is None && other is Some ==> facts.gpu == other
            &&& payload is None && other is None && nested is Some ==> facts.gpu == nested
            &&& payload is None && other is None && nested is None ==> facts.gpu
                == nearai::nested_text(report, "nvidia_quote"@)
        },
{
}

/// What stands further down in a report stands in the first of its attestations.
pub proof fn law_first_attestation_counts(
    report: JsonValue,
    list: Seq<JsonValue>,
    key: Seq<char>,
)
    ensures
        elements_at(report, "model_attestations"@) == Some(list) && list.len() > 0
            ==> nearai::nested_text(report, key) == text_at(list[0], key),
        elements_at(report, "model_attestations"@) is None ==> nearai::nested_text(report, key)
            is None,
{
}

/// A quote is read from its digits, with or without a mark before them, where it is whole.
pub proof fn law_quotes_are_read(quote: Seq<u8>)
    ensures
        quote.len() >= 632 ==> nearai::quote_bytes(hex_of(quote)) == Ok::<Seq<u8>, Seq<char>>(quote)
            && nearai::quote_bytes("0x"@ + hex_of(quote)) == Ok::<Seq<u8>, Seq<char>>(quote),
        quote.len() < 632 ==> nearai::quote_bytes(hex_of(quote)) == Err::<Seq<u8>, Seq<char>>(
            "FATAL: TDX Quote is too short to contain REPORTDATA"@,
        ),
{
    law_hex_read_back(quote);
    lemma_mark_goes(hex_of(quote));
}

proof fn lemma_mark_goes(digits: Seq<char>)
    requires
        is_hex(digits),
    ensures
        crate::text::without_prefixes(digits, "0x"@) == digits,
        crate::text::without_prefixes("0x"@ + digits, "0x"@) == digits,
{
    reveal_strlit("0x");
    let zero_x = "0x"@;
    assert(zero_x.len() == 2 && zero_x[1] == 'x');
    assert(!crate::text::has_prefix(digits, zero_x)) by {
        if crate::text::has_prefix(digits, zero_x) {
            assert(digits.subrange(0, 2)[1] == digits[1]);
            assert(crate::primitives::hex_value(digits[1]) is Some);
        }
    }
    let long = zero_x + digits;
    assert(long.subrange(0, 2) =~= zero_x);
    assert(long.skip(2) =~= digits);
    reveal_with_fuel(crate::text::without_prefixes, 2);
}

// ---------------------------------------------------------------------------
// GPUs
// ---------------------------------------------------------------------------

/// Whether a text has no dot.
pub open spec fn dotless(s: Seq<char>) -> bool {
    forall|i: int| 0 <= i < s.len() ==> #[trigger] s[i] != '.'
}

/// A token says what its second part stands for, whatever the other parts hold.
pub proof fn law_tokens_say_their_second_part(
    head: Seq<char>,
    claims: Seq<char>,
    seal: Seq<char>,
    name: Seq<char>,
    short: Seq<char>,
)
    requires
        dotless(head),
        dotless(claims),
    ensures
        jwt_payload(head, name, short) is Err,
        base64url_decoded(claims) matches Ok(b) ==> jwt_payload(
            head + seq!['.'] + (claims + seq!['.'] + seal),
            name,
            short,
        ) == Ok::<Seq<u8>, Seq<char>>(b) && jwt_payload(head + seq!['.'] + claims, name, short)
            == Ok::<Seq<u8>, Seq<char>>(b),
        base64url_decoded(claims) is Err ==> jwt_payload(
            head + seq!['.'] + (claims + seq!['.'] + seal),
            name,
            short,
        ) is Err,
{
    let rest = claims + seq!['.'] + seal;
    lemma_split_once(head, rest);
    lemma_split_once(claims, seal);
    lemma_split_once(head, claims);
    lemma_no_split(head);
    lemma_no_split(claims);
    assert(split_on(head + seq!['.'] + rest, '.')[1] == claims);
    assert(split_on(head + seq!['.'] + claims, '.')[1] == claims);
}

proof fn lemma_no_split(s: Seq<char>)
    requires
        dotless(s),
    ensures
        split_on(s, '.') == seq![s],
{
    lemma_find_char(s, '.', 0);
}

proof fn lemma_split_once(a: Seq<char>, b: Seq<char>)
    requires
        dotless(a),
    ensures
        split_on(a + seq!['.'] + b, '.') == seq![a] + split_on(b, '.'),
        split_on(b, '.').len() >= 1,
{
    let s = a + seq!['.'] + b;
    lemma_find_char(s, '.', 0);
    assert(s[a.len() as int] == '.');
    let i = find_char(s, '.', 0)->0;
    if i < a.len() {
        assert(s[i] == a[i]);
    }
    assert(i == a.len());
    assert(s.take(i) =~= a);
    assert(s.skip(i + 1) =~= b);
    crate::text::lemma_split_lengths(b, '.');
}

/// The tokens of an answer stand where they must: the machine's behind the first word of the
/// first list, the GPU's under its name in the second.
pub proof fn law_tokens_are_found(
    kind: JsonValue,
    machine: Seq<char>,
    gpus: Seq<(Seq<char>, JsonValue)>,
    token: Seq<char>,
)
    requires
        first_says(gpus, "GPU-0"@, JsonValue::Str(token)),
    ensures
        ({
            let nras = JsonValue::Arr(
                seq![
                    JsonValue::Arr(seq![kind, JsonValue::Str(machine)]),
                    JsonValue::Obj(gpus),
                ],
            );
            &&& top_payload_of(nras) == jwt_payload(machine, "Top"@, "top"@)
            &&& gpu_payload_of(nras) == jwt_payload(token, "GPU"@, "GPU"@)
        }),
{
    law_fields_are_first_entries(gpus, "GPU-0"@, JsonValue::Str(token));
}

/// A key of an object has the value of its first field, and none where it has no field.
pub proof fn law_fields_are_first_entries(
    fields: Seq<(Seq<char>, JsonValue)>,
    key: Seq<char>,
    value: JsonValue,
)
    ensures
        first_says(fields, key, value) <==> JsonValue::Obj(fields).get(key) == Some(value),
        says_nothing(fields, key) <==> JsonValue::Obj(fields).get(key) is None,
        first_says(fields, key, value) && value is Str ==> text_at(JsonValue::Obj(fields), key)
            == Some(value->Str_0),
        first_says(fields, key, value) && !(value is Str) ==> text_at(JsonValue::Obj(fields), key)
            is None,
        first_says(fields, key, value) && value is Bool ==> truth_at(JsonValue::Obj(fields), key)
            == Some(value->Bool_0),
        first_says(fields, key, value) && !(value is Bool) ==> truth_at(
            JsonValue::Obj(fields),
            key,
        ) is None,
        first_says(fields, key, value) && value is Arr ==> elements_at(JsonValue::Obj(fields), key)
            == Some(value->Arr_0),
        first_says(fields, key, value) && !(value is Arr) ==> elements_at(
            JsonValue::Obj(fields),
            key,
        ) is None,
{
    crate::json::lemma_key_at(fields, key, 0);
    if first_says(fields, key, value) {
        let i = choose|i: int|
            0 <= i < fields.len() && #[trigger] fields[i] == (key, value) && forall|j: int|
                0 <= j < i ==> (#[trigger] fields[j]).0 != key;
        assert(fields[i].0 == key);
    }
}

/// A machine and its GPU pass exactly where both tokens can be read, the verdict is that they
/// do, the GPU cannot be debugged, it booted checked, and it answers to the nonce.
pub proof fn law_gpus_pass_exactly(
    nras: JsonValue,
    top: Option<JsonValue>,
    gpu: Option<JsonValue>,
    nonce: Seq<u8>,
    digits: Seq<char>,
)
    requires
        nonce.len() == 32,
        gpu matches Some(g) ==> text_at(g, "eat_nonce"@) == Some(digits),
    ensures
        nras_outcome(nras, top, gpu, nonce) is Ok <==> {
            &&& top_payload_of(nras) is Ok
            &&& top matches Some(t) && truth_at(t, "x-nvidia-overall-att-result"@) == Some(true)
            &&& gpu_payload_of(nras) is Ok
            &&& gpu matches Some(g) && text_at(g, "dbgstat"@) == Some("disabled"@) && truth_at(
                g,
                "secboot"@,
            ) == Some(true) && is_hex(digits) && hex_bytes(digits) == nonce
        },
{
}

// ---------------------------------------------------------------------------
// Sealing to a model's enclave
// ---------------------------------------------------------------------------

/// What is sealed to a key is read with it: the bytes are the ephemeral key, the nonce and
/// the sealed text, in hexadecimal, and the key is derived from what the two keys agree on.
pub proof fn law_sealed_texts_are_read(
    ephemeral: Seq<u8>,
    nonce: Seq<u8>,
    sealed: Seq<u8>,
    secret: Seq<u8>,
    said: Seq<char>,
)
    requires
        ephemeral.len() == 32,
        nonce.len() == 24,
        sealed.len() <= 274877906832,
    ensures
        ({
            let opened = xchacha_opened(
                hkdf_sha256_of(
                    seq![],
                    x25519_shared_of(secret, ephemeral),
                    encode_utf8("ed25519_encryption"@),
                ),
                nonce,
                sealed,
            );
            let r = v2_outcome(hex_of(ephemeral + nonce + sealed), secret);
            &&& opened == Some(encode_utf8(said)) ==> r == Ok::<Seq<char>, Seq<char>>(said)
            &&& opened is None ==> r == Err::<Seq<char>, Seq<char>>("Decryption failed"@)
        }),
{
    let bytes = ephemeral + nonce + sealed;
    law_hex_read_back(bytes);
    assert(bytes.take(32) =~= ephemeral);
    assert(bytes.subrange(32, 56) =~= nonce);
    assert(bytes.skip(56) =~= sealed);
    vstd::utf8::encode_utf8_decode_utf8(said);
    vstd::utf8::encode_utf8_valid_utf8(said);
}

/// What is sealed is the hexadecimal text of the ephemeral key, the nonce and the sealed
/// bytes, under the key derived from the shared secret.
pub proof fn law_sealed_texts_are_laid_out(
    ephemeral: Seq<u8>,
    shared: Seq<u8>,
    nonce: Seq<u8>,
    plaintext: Seq<u8>,
)
    ensures
        hex_bytes(v2_text(ephemeral, shared, nonce, plaintext)) == ephemeral + nonce
            + xchacha_sealed(
            hkdf_sha256_of(seq![], shared, encode_utf8("ed25519_encryption"@)),
            nonce,
            plaintext,
        ),
{
    law_hex_read_back(
        ephemeral + nonce + xchacha_sealed(
            hkdf_sha256_of(seq![], shared, encode_utf8("ed25519_encryption"@)),
            nonce,
            plaintext,
        ),
    );
}

/// A secret key is the first half of the seed's digest, with the three lowest bits cleared,
/// the highest bit cleared and the second highest set.
pub proof fn law_secret_keys_are_clamped(seed: Seq<u8>)
    requires
        sha512_of(seed).len() == 64,
    ensures
        clamped_secret(seed).len() == 32,
        clamped_secret(seed)[0] == sha512_of(seed)[0] - sha512_of(seed)[0] % 8,
        clamped_secret(seed)[31] == 64 + sha512_of(seed)[31] % 64,
        forall|i: int| 0 < i < 31 ==> #[trigger] clamped_secret(seed)[i] == sha512_of(seed)[i],
{
    let low = sha512_of(seed)[0];
    let high = sha512_of(seed)[31];
    assert(low & 248 == low - low % 8) by (bit_vector);
    assert((high & 127) | 64 == 64 + high % 64) by (bit_vector);
}

/// A certificate's digest is pinned where one of the pins spells it, in digits of either
/// case; and a server of which no digest was seen may show any.
pub proof fn law_pins_spell_digests(
    pins: Seq<Seq<char>>,
    digest: Seq<u8>,
    i: int,
    seen: Seq<(Seq<char>, Seq<Seq<char>>)>,
    server: Seq<char>,
    digests: Seq<Seq<char>>,
    shown: Seq<char>,
)
    ensures
        0 <= i < pins.len() && pins[i] == hex_of(digest) ==> is_pinned(pins, digest),
        (forall|j: int| 0 <= j < pins.len() ==> hex_bytes(#[trigger] pins[j]) != digest)
            ==> !is_pinned(pins, digest),
        says_nothing(seen, server) ==> may_be_served(seen, server, shown),
        first_says(seen, server, digests) ==> (may_be_served(seen, server, shown) <==> exists|k: int|
            0 <= k < digests.len() && digests[k] == shown),
{
    law_hex_read_back(digest);
    law_first_entry_counts(seen, server, digests);
    if 0 <= i < pins.len() && pins[i] == hex_of(digest) {
        assert(crate::nearai_tls::is_pin_of(pins[i], digest));
    }
}

// ---------------------------------------------------------------------------
// Sealing to an instance
// ---------------------------------------------------------------------------

/// A request to an instance is the encapsulated secret, the nonce and the compressed request,
/// sealed under the key derived from the secret for requests.
pub proof fn law_instance_requests_are_laid_out(
    ciphertext: Seq<u8>,
    shared: Seq<u8>,
    nonce: Seq<u8>,
    json: Seq<u8>,
)
    requires
        ciphertext.len() >= 16,
    ensures
        gzipped(json) matches Ok(z) ==> z.len() <= 274877906816 ==> chutes_e2ee::request_outcome(
            ciphertext,
            shared,
            nonce,
            json,
        ) == Ok::<Seq<u8>, Seq<char>>(
            ciphertext + (nonce + chacha_sealed(
                hkdf_sha256_of(ciphertext.take(16), shared, encode_utf8("e2e-req-v1"@)),
                nonce,
                z,
            )),
        ),
        gzipped(json) is Err ==> chutes_e2ee::request_outcome(ciphertext, shared, nonce, json)
            is Err,
{
}

/// An answer of an instance opens with the secret that it encapsulates, under the key for
/// answers, and is then unpacked; one that does not open is refused.
pub proof fn law_instance_answers_are_read(
    secret: Seq<u8>,
    ciphertext: Seq<u8>,
    shared: Seq<u8>,
    nonce: Seq<u8>,
    sealed: Seq<u8>,
    packed: Seq<u8>,
    json: Seq<u8>,
)
    requires
        ciphertext.len() == 1088,
        nonce.len() == 12,
        16 <= sealed.len() <= 274877906832,
        mlkem_decapsulated(secret, ciphertext) == Some(shared),
    ensures
        ({
            let opened = chacha_opened(
                hkdf_sha256_of(ciphertext.take(16), shared, encode_utf8("e2e-resp-v1"@)),
                nonce,
                sealed,
            );
            let r = chutes_e2ee::response_outcome(ciphertext + nonce + sealed, secret);
            &&& opened == Some(packed) && gunzipped(packed) == Ok::<Seq<u8>, Seq<char>>(json)
                ==> r == Ok::<Seq<u8>, Seq<char>>(json)
            &&& opened is None ==> r == Err::<Seq<u8>, Seq<char>>(
                "ChaCha20 decryption/auth failed"@,
            )
        }),
{
    let blob = ciphertext + nonce + sealed;
    assert(blob.take(1088) =~= ciphertext);
    assert(blob.skip(1088) =~= nonce + sealed);
    assert((nonce + sealed).take(12) =~= nonce);
    assert((nonce + sealed).skip(12) =~= sealed);
}

/// The pieces of an instance's stream open under the key for streams, each with its own
/// nonce.
pub proof fn law_instance_pieces_are_read(
    secret: Seq<u8>,
    init: Seq<char>,
    ciphertext: Seq<u8>,
    shared: Seq<u8>,
    piece: Seq<char>,
    nonce: Seq<u8>,
    sealed: Seq<u8>,
    said: Seq<char>,
)
    requires
        ciphertext.len() >= 16,
        base64_decoded(init) == Some(ciphertext),
        mlkem_decapsulated(secret, ciphertext) == Some(shared),
        nonce.len() == 12,
        16 <= sealed.len() <= 274877906832,
        base64_decoded(piece) == Some(nonce + sealed),
    ensures
        ({
            let key = hkdf_sha256_of(ciphertext.take(16), shared, encode_utf8("e2e-stream-v1"@));
            &&& chutes_e2ee::stream_key_outcome(secret, init) == Ok::<Seq<u8>, Seq<char>>(key)
            &&& chacha_opened(key, nonce, sealed) == Some(encode_utf8(said))
                ==> chutes_e2ee::chunk_outcome(piece, key) == Ok::<Seq<char>, Seq<char>>(said)
            &&& chacha_opened(key, nonce, sealed) is None ==> chutes_e2ee::chunk_outcome(piece, key)
                is Err
        }),
{
    assert((nonce + sealed).take(12) =~= nonce);
    assert((nonce + sealed).skip(12) =~= sealed);
    vstd::utf8::encode_utf8_decode_utf8(said);
    vstd::utf8::encode_utf8_valid_utf8(said);
}

/// An instance is attested exactly where the first evidence on it holds a quote that is
/// whole, signed, not to be debugged and bound to the nonce and the instance's key, and a
/// GPU's evidence that passes for the same binding.
pub proof fn law_instances_pass_exactly(
    evidence: Seq<JsonValue>,
    at: int,
    id: Seq<char>,
    pubkey: Seq<char>,
    nonce: Seq<u8>,
    found: Findings,
    quote: Seq<u8>,
)
    requires
        0 <= at < evidence.len(),
        text_at(evidence[at], "instance_id"@) == Some(id),
        forall|j: int|
            0 <= j < at ==> text_at(#[trigger] evidence[j], "instance_id"@) != Some(id),
        text_at(evidence[at], "quote"@) matches Some(q) && base64_decoded(q) == Some(quote),
        sha256_of(encode_utf8(hex_of(nonce) + pubkey)).len() == 32,
    ensures
        chutes_call::attested(evidence, id, pubkey, nonce, found) <==> {
            let hash = sha256_of(encode_utf8(hex_of(nonce) + pubkey));
            &&& quote.len() >= 632
            &&& found.hardware
            &&& quote[168] % 2 == 0
            &&& reports(quote, hash)
            &&& elements_at(evidence[at], "gpu_evidence"@) is Some
            &&& found.nras matches Some(nras) && nras_outcome(
                nras@,
                told(found.top),
                told(found.gpu),
                hash,
            ) is Ok
        },
{
    lemma_evidence_on(evidence, id, 0, at);
    let hash = sha256_of(encode_utf8(hex_of(nonce) + pubkey));
    if quote.len() >= 632 {
        lemma_reports(quote, hash);
    }
}

/// An instance on which there is no evidence is not attested.
pub proof fn law_no_trust_without_evidence(
    evidence: Seq<JsonValue>,
    id: Seq<char>,
    pubkey: Seq<char>,
    nonce: Seq<u8>,
    found: Findings,
)
    requires
        forall|j: int|
            0 <= j < evidence.len() ==> text_at(#[trigger] evidence[j], "instance_id"@) != Some(id),
    ensures
        !chutes_call::attested(evidence, id, pubkey, nonce, found),
{
    lemma_evidence_on(evidence, id, 0, evidence.len() as int);
}

proof fn lemma_evidence_on(evidence: Seq<JsonValue>, id: Seq<char>, from: int, at: int)
    requires
        0 <= from <= at <= evidence.len(),
        forall|j: int|
            from <= j < at ==> text_at(#[trigger] evidence[j], "instance_id"@) != Some(id),
        at < evidence.len() ==> text_at(evidence[at], "instance_id"@) == Some(id),
    ensures
        at < evidence.len() ==> chutes_call::evidence_on(evidence, id, from) == Some(evidence[at]),
        at == evidence.len() ==> chutes_call::evidence_on(evidence, id, from) is None,
    decreases at - from,
{
    if from < at {
        assert(text_at(evidence[from], "instance_id"@) != Some(id));
        lemma_evidence_on(evidence, id, from + 1, at);
    }
}

/// All instances are trusted, or none: they are named exactly where there are some and each
/// of them is attested.
pub proof fn law_all_or_none_are_trusted(
    evidence: Seq<JsonValue>,
    v: Seq<InstanceFacts>,
    nonce: Seq<u8>,
    found: Seq<Findings>,
)
    ensures
        chutes_call::evidence_outcome(evidence, v, nonce, found) is Ok <==> v.len() > 0
            && forall|i: int|
            0 <= i < v.len() ==> chutes_call::attested(
                evidence,
                (#[trigger] v[i]).id,
                v[i].pubkey,
                nonce,
                found[i],
            ),
        chutes_call::evidence_outcome(evidence, v, nonce, found) matches Ok(names) ==> names.len()
            == v.len() && forall|i: int| 0 <= i < v.len() ==> #[trigger] names[i] == v[i].id,
{
    lemma_first_unattested(evidence, v, nonce, found, 0);
    if forall|i: int|
        0 <= i < v.len() ==> chutes_call::attested(
            evidence,
            (#[trigger] v[i]).id,
            v[i].pubkey,
            nonce,
            found[i],
        ) {
        match chutes_call::first_unattested(evidence, v, nonce, found, 0) {
            Some(k) => {
                assert(chutes_call::attested(evidence, v[k].id, v[k].pubkey, nonce, found[k]));
            },
            None => {},
        }
    }
    if chutes_call::first_unattested(evidence, v, nonce, found, 0) is None {
        assert forall|i: int| 0 <= i < v.len() implies chutes_call::attested(
            evidence,
            (#[trigger] v[i]).id,
            v[i].pubkey,
            nonce,
            found[i],
        ) by {
            assert(chutes_call::attested_at(evidence, v, nonce, found, i));
        }
    }
}

proof fn lemma_first_unattested(
    evidence: Seq<JsonValue>,
    v: Seq<InstanceFacts>,
    nonce: Seq<u8>,
    found: Seq<Findings>,
    from: int,
)
    requires
        0 <= from,
    ensures
        match chutes_call::first_unattested(evidence, v, nonce, found, from) {
            Some(k) => from <= k < v.len() && !chutes_call::attested_at(
                evidence,
                v,
                nonce,
                found,
                k,
            ),
            None => forall|i: int|
                from <= i < v.len() ==> #[trigger] chutes_call::attested_at(
                    evidence,
                    v,
                    nonce,
                    found,
                    i,
                ),
        },
    decreases v.len() - from,
{
    if from < v.len() && chutes_call::attested_at(evidence, v, nonce, found, from) {
        lemma_first_unattested(evidence, v, nonce, found, from + 1);
    }
}

} // verus!
