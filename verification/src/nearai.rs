//! Enclaves of Near AI: what an attestation report must say before a model's key is used,
//! which certificates are accepted, and which models there are.

use vstd::prelude::*;
use vstd::utf8::encode_utf8;

use crate::attestation::debug_enclave;
use crate::attestation::debuggable;
use crate::attestation::is_debuggable;
use crate::attestation::report_data;
use crate::attestation::said;
use crate::attestation::short_quote;
use crate::attestation::told;
use crate::attestation::unbound;
use crate::attestation::MIN_TDX_QUOTE_LEN;
use crate::bytes::copy_bytes;
use crate::bytes::push_all;
use crate::json::lemma_object_view;
use crate::json::set_field;
use crate::json::text_at;
use crate::json::with_field;
use crate::json::Json;
use crate::json::JsonValue;
use crate::primitives::constant_time_eq;
use crate::primitives::edwards_to_montgomery;
use crate::primitives::hex_bytes;
use crate::primitives::hex_decode;
use crate::primitives::hex_decode_array;
use crate::primitives::hex_encode;
use crate::primitives::hex_of;
use crate::primitives::is_hex;
use crate::primitives::montgomery_of;
use crate::primitives::sha256;
use crate::primitives::sha256_of;
use crate::text;
use crate::text::has_prefix;
use crate::text::without_prefixes;
use crate::timing::first_of;

verus! {

// ---------------------------------------------------------------------------
// The report
// ---------------------------------------------------------------------------

/// A text of the first attestation that is listed inside a report.
pub open spec fn nested_text(report: JsonValue, key: Seq<char>) -> Option<Seq<char>> {
    match report.get("model_attestations"@) {
        Some(list) => match list.at(0) {
            Some(first) => text_at(first, key),
            None => None,
        },
        None => None,
    }
}

/// The signing key of a report, as text.
pub open spec fn signing_key_text(report: JsonValue) -> Option<Seq<char>> {
    first_of(
        text_at(report, "signing_public_key"@),
        first_of(
            text_at(report, "signing_address"@),
            first_of(
                nested_text(report, "signing_public_key"@),
                nested_text(report, "signing_address"@),
            ),
        ),
    )
}

/// The quote of a report, as text.
pub open spec fn quote_text(report: JsonValue) -> Option<Seq<char>> {
    first_of(text_at(report, "intel_quote"@), nested_text(report, "intel_quote"@))
}

/// The evidence on the GPU in a report, as text.
pub open spec fn gpu_text(report: JsonValue) -> Option<Seq<char>> {
    first_of(
        text_at(report, "nvidia_payload"@),
        first_of(
            text_at(report, "nvidia_quote"@),
            first_of(
                nested_text(report, "nvidia_payload"@),
                nested_text(report, "nvidia_quote"@),
            ),
        ),
    )
}

/// What a report says: the signing key, the certificate that goes with it, and the evidence.
#[verifier::ext_equal]
pub struct ReportFacts {
    pub key: Seq<u8>,
    pub fingerprint: Seq<char>,
    pub certificate: Seq<u8>,
    pub quote: Option<Seq<char>>,
    pub gpu: Option<Seq<char>>,
}

/// What a report says, or what it lacks.
pub open spec fn report_outcome(report: JsonValue) -> Result<ReportFacts, Seq<char>> {
    match signing_key_text(report) {
        None => Err("FATAL: Missing signing key in attestation response"@),
        Some(shown) => {
            let digits = without_prefixes(shown, "0x"@);
            if !is_hex(digits) || digits.len() != 64 {
                Err("Invalid hex in model key: "@ + shown)
            } else {
                match text_at(report, "tls_cert_fingerprint"@) {
                    None => Err(
                        "FATAL: Missing tls_cert_fingerprint in attestation response"@,
                    ),
                    Some(f) => if !is_hex(f) {
                        Err("Invalid hex in tls_cert_fingerprint: "@ + f)
                    } else {
                        Ok(
                            ReportFacts {
                                key: hex_bytes(digits),
                                fingerprint: f,
                                certificate: hex_bytes(f),
                                quote: quote_text(report),
                                gpu: gpu_text(report),
                            },
                        )
                    },
                }
            }
        },
    }
}

/// A report, read.
pub struct Report {
    pub key: [u8; 32],
    pub tls_fingerprint: String,
    pub certificate: Vec<u8>,
    pub intel_quote: Option<String>,
    pub nvidia_payload: Option<String>,
}

/// A text, if there is one.
pub open spec fn shown(s: Option<String>) -> Option<Seq<char>> {
    match s {
        Some(t) => Some(t@),
        None => None,
    }
}

impl Report {
    /// What the report says.
    pub open spec fn view(&self) -> ReportFacts {
        ReportFacts {
            key: self.key@,
            fingerprint: self.tls_fingerprint@,
            certificate: self.certificate@,
            quote: shown(self.intel_quote),
            gpu: shown(self.nvidia_payload),
        }
    }
}

fn nested<'a>(report: &'a Json, key: &str) -> (r: Option<&'a String>)
    ensures
        match r {
            Some(s) => nested_text(report@, key@) == Some(s@),
            None => nested_text(report@, key@) is None,
        },
{
    match report.get("model_attestations") {
        Some(list) => match list.at(0) {
            Some(first) => first.text_at(key),
            None => None,
        },
        None => None,
    }
}

fn first_text<'a>(a: Option<&'a String>, b: Option<&'a String>) -> (r: Option<&'a String>)
    ensures
        r == (if a is Some {
            a
        } else {
            b
        }),
{
    match a {
        Some(s) => Some(s),
        None => b,
    }
}

fn owned(s: Option<&String>) -> (r: Option<String>)
    ensures
        match s {
            Some(t) => r is Some && r->0@ == t@,
            None => r is None,
        },
{
    match s {
        Some(t) => Some(t.clone()),
        None => None,
    }
}

/// Reads a report.
pub fn read_report(report: &Json) -> (r: Result<Report, String>)
    ensures
        match r {
            Ok(x) => report_outcome(report@) == Ok::<ReportFacts, Seq<char>>(x@),
            Err(e) => report_outcome(report@) == Err::<ReportFacts, Seq<char>>(e@),
        },
{
    let signing = first_text(
        report.text_at("signing_public_key"),
        first_text(
            report.text_at("signing_address"),
            first_text(nested(report, "signing_public_key"), nested(report, "signing_address")),
        ),
    );
    let shown_key = match signing {
        Some(s) => s,
        None => {
            return Err("FATAL: Missing signing key in attestation response".to_string());
        },
    };
    proof {
        reveal_strlit("0x");
    }
    let digits = text::trim_start_matches(shown_key.as_str(), "0x");
    let key = match hex_decode_array::<32>(digits.as_str()) {
        Some(k) => k,
        None => {
            return Err(text::cat2("Invalid hex in model key: ", shown_key.as_str()));
        },
    };
    let quote = first_text(report.text_at("intel_quote"), nested(report, "intel_quote"));
    let gpu = first_text(
        report.text_at("nvidia_payload"),
        first_text(
            report.text_at("nvidia_quote"),
            first_text(nested(report, "nvidia_payload"), nested(report, "nvidia_quote")),
        ),
    );
    let fingerprint = match report.text_at("tls_cert_fingerprint") {
        Some(f) => f,
        None => {
            return Err("FATAL: Missing tls_cert_fingerprint in attestation response".to_string());
        },
    };
    let certificate = match hex_decode(fingerprint.as_str()) {
        Some(b) => b,
        None => {
            return Err(
                text::cat2("Invalid hex in tls_cert_fingerprint: ", fingerprint.as_str()),
            );
        },
    };
    Ok(
        Report {
            key,
            tls_fingerprint: fingerprint.clone(),
            certificate,
            intel_quote: owned(quote),
            nvidia_payload: owned(gpu),
        },
    )
}

// ---------------------------------------------------------------------------
// The quote in a report
// ---------------------------------------------------------------------------

/// The bytes of a quote, or why they are none.
pub open spec fn quote_bytes(digits: Seq<char>) -> Result<Seq<u8>, Seq<char>> {
    let bare = without_prefixes(digits, "0x"@);
    if !is_hex(bare) {
        Err("Invalid hex in TDX quote"@)
    } else if hex_bytes(bare).len() < MIN_TDX_QUOTE_LEN {
        Err(short_quote())
    } else {
        Ok(hex_bytes(bare))
    }
}

/// Reads the bytes of a quote.
pub fn read_quote(digits: &str) -> (r: Result<Vec<u8>, String>)
    ensures
        match r {
            Ok(b) => quote_bytes(digits@) is Ok && quote_bytes(digits@)->Ok_0 == b@ && b@.len()
                >= MIN_TDX_QUOTE_LEN,
            Err(e) => quote_bytes(digits@) == Err::<Seq<u8>, Seq<char>>(e@),
        },
{
    proof {
        reveal_strlit("0x");
    }
    let bare = text::trim_start_matches(digits, "0x");
    match hex_decode(bare.as_str()) {
        Some(b) => {
            if b.len() < MIN_TDX_QUOTE_LEN {
                return Err("FATAL: TDX Quote is too short to contain REPORTDATA".to_string());
            }
            Ok(b)
        },
        None => Err("Invalid hex in TDX quote".to_string()),
    }
}

/// What a quote says of the configuration that the enclave was started with.
pub open spec fn config_of(quote: Seq<u8>) -> Seq<u8> {
    quote.subrange(232, 280)
}

/// Whether some bytes are all zero.
pub open spec fn all_zero(b: Seq<u8>) -> bool {
    forall|i: int| 0 <= i < b.len() ==> #[trigger] b[i] == 0
}

/// How the configuration must start for a composition of services.
pub open spec fn config_prefix(compose: Seq<char>) -> Seq<char> {
    "01"@ + hex_of(sha256_of(encode_utf8(compose)))
}

/// The verdict on a quote: it must bind the signing key, the certificate and the nonce, and
/// the configuration must be the composition that the report shows, where both are there.
pub open spec fn quote_outcome(
    quote: Seq<u8>,
    key: Seq<u8>,
    certificate: Seq<u8>,
    nonce: Seq<u8>,
    hardware: Result<(), Seq<char>>,
    compose: Option<Seq<char>>,
) -> Result<(), Seq<char>> {
    if hardware is Err {
        hardware
    } else if is_debuggable(quote) {
        Err(debug_enclave())
    } else if report_data(quote) != sha256_of(key + certificate) + nonce {
        Err(unbound())
    } else if compose is Some && !all_zero(config_of(quote)) && !has_prefix(
        hex_of(config_of(quote)),
        config_prefix(compose->0),
    ) {
        Err(
            "FATAL: Docker Compose hash mismatch! mr_config_id does not match SHA256(app_compose). Expected prefix: "@
                + config_prefix(compose->0) + ", Got: "@ + hex_of(config_of(quote)),
        )
    } else {
        Ok(())
    }
}

fn is_all_zero(b: &[u8]) -> (r: bool)
    ensures
        r == all_zero(b@),
{
    let mut i: usize = 0;
    while i < b.len()
        invariant
            i <= b@.len(),
            forall|j: int| 0 <= j < i ==> #[trigger] b@[j] == 0,
        decreases b@.len() - i,
    {
        if b[i] != 0 {
            return false;
        }
        i = i + 1;
    }
    true
}

/// Gives the verdict on a quote.
pub fn check_quote(
    quote: &[u8],
    key: &[u8; 32],
    certificate: &[u8],
    nonce: &[u8; 32],
    hardware: Result<(), String>,
    compose: &Option<String>,
) -> (r: Result<(), String>)
    requires
        quote@.len() >= MIN_TDX_QUOTE_LEN,
    ensures
        said(r) == quote_outcome(
            quote@,
            key@,
            certificate@,
            nonce@,
            said(hardware),
            shown(*compose),
        ),
{
    match hardware {
        Ok(_) => {},
        Err(e) => {
            return Err(e);
        },
    }
    if debuggable(quote) {
        return Err(
            "FATAL: Intel TDX Enclave is running in DEBUG mode. Memory can be dumped!".to_string(),
        );
    }
    let mut input: Vec<u8> = Vec::new();
    push_all(&mut input, key.as_slice());
    push_all(&mut input, certificate);
    proof {
        assert(input@ =~= key@ + certificate@);
    }
    let hash = sha256(input.as_slice());
    let first = copy_bytes(quote, 568, 600);
    let second = copy_bytes(quote, 600, 632);
    let bound = constant_time_eq(first.as_slice(), hash.as_slice());
    let fresh = constant_time_eq(second.as_slice(), nonce.as_slice());
    proof {
        let d = report_data(quote@);
        assert(first@ =~= d.take(32));
        assert(second@ =~= d.skip(32));
        assert(d =~= first@ + second@);
        if bound && fresh {
            assert(d =~= hash@ + nonce@);
        } else {
            let e = hash@ + nonce@;
            assert(e.take(32) =~= hash@);
            assert(e.skip(32) =~= nonce@);
        }
    }
    if !bound || !fresh {
        return Err(
            "FATAL: Intel TDX Key/TLS/Nonce binding verification failed! Possible MITM attack.".to_string(),
        );
    }
    let config = copy_bytes(quote, 232, 280);
    if let Some(c) = compose {
        if !is_all_zero(config.as_slice()) {
            let digest = sha256(c.as_str().as_bytes());
            let digits = hex_encode(digest.as_slice());
            let expected = text::cat2("01", digits.as_str());
            let got = hex_encode(config.as_slice());
            if !text::starts_with(got.as_str(), expected.as_str()) {
                return Err(
                    text::cat4(
                        "FATAL: Docker Compose hash mismatch! mr_config_id does not match SHA256(app_compose). Expected prefix: ",
                        expected.as_str(),
                        ", Got: ",
                        got.as_str(),
                    ),
                );
            }
        }
    }
    Ok(())
}

/// What a report says of the enclave's software.
pub open spec fn tcb_of(report: JsonValue) -> Option<JsonValue> {
    match report.get("info"@) {
        Some(info) => info.get("tcb_info"@),
        None => None,
    }
}

/// The composition of services in a report. Where it stands inside a text, `parsed` is that
/// text, read as JSON.
pub open spec fn compose_of(report: JsonValue, parsed: Option<JsonValue>) -> Option<Seq<char>> {
    match tcb_of(report) {
        Some(JsonValue::Str(_)) => match parsed {
            Some(p) => text_at(p, "app_compose"@),
            None => None,
        },
        Some(v) => text_at(v, "app_compose"@),
        None => None,
    }
}

/// The text in which the composition stands, if it stands in one.
pub fn tcb_text(report: &Json) -> (r: Option<String>)
    ensures
        match r {
            Some(s) => tcb_of(report@) == Some(JsonValue::Str(s@)),
            None => !(tcb_of(report@) matches Some(JsonValue::Str(_))),
        },
{
    match report.get("info") {
        Some(info) => match info.get("tcb_info") {
            Some(Json::Str(s)) => Some(s.clone()),
            _ => None,
        },
        None => None,
    }
}

/// Reads the composition of services in a report.
pub fn app_compose(report: &Json, parsed: &Option<Json>) -> (r: Option<String>)
    ensures
        shown(r) == compose_of(report@, told(*parsed)),
{
    match report.get("info") {
        Some(info) => match info.get("tcb_info") {
            Some(Json::Str(_)) => match parsed {
                Some(p) => owned(p.text_at("app_compose")),
                None => None,
            },
            Some(v) => owned(v.text_at("app_compose")),
            None => None,
        },
        None => None,
    }
}

/// What is asked of NVIDIA's service: the report's evidence, for the nonce.
pub open spec fn gpu_question(payload: JsonValue, nonce: Seq<u8>) -> JsonValue {
    match payload {
        JsonValue::Obj(fields) => JsonValue::Obj(
            with_field(
                with_field(fields, "nonce"@, JsonValue::Str(hex_of(nonce))),
                "arch"@,
                JsonValue::Str("HOPPER"@),
            ),
        ),
        _ => payload,
    }
}

/// Puts together what is asked of NVIDIA's service.
pub fn gpu_request(payload: Json, nonce: &[u8; 32]) -> (r: Json)
    ensures
        r@ == gpu_question(payload@, nonce@),
{
    match payload {
        Json::Obj(fields) => {
            let mut fields = fields;
            proof {
                lemma_object_view(fields);
            }
            set_field(&mut fields, "nonce", Json::Str(hex_encode(nonce.as_slice())));
            set_field(&mut fields, "arch", Json::Str("HOPPER".to_string()));
            proof {
                lemma_object_view(fields);
            }
            Json::Obj(fields)
        },
        _ => payload,
    }
}

// ---------------------------------------------------------------------------
// The key of a model
// ---------------------------------------------------------------------------

/// The verdict on the quote of a report, if it has one.
pub open spec fn tdx_stage(
    facts: ReportFacts,
    nonce: Seq<u8>,
    hardware: Result<(), Seq<char>>,
    compose: Option<Seq<char>>,
) -> Result<(), Seq<char>> {
    match facts.quote {
        None => Ok(()),
        Some(digits) => match quote_bytes(digits) {
            Err(e) => Err(e),
            Ok(quote) => quote_outcome(
                quote,
                facts.key,
                facts.certificate,
                nonce,
                hardware,
                compose,
            ),
        },
    }
}

/// The key of a model, and the fingerprint of its certificate, or why there is none to be
/// trusted. `hardware` and `gpu` are the verdicts of others on the quote's signature and on
/// the GPU.
pub open spec fn key_outcome(
    report: JsonValue,
    nonce: Seq<u8>,
    hardware: Result<(), Seq<char>>,
    parsed: Option<JsonValue>,
    gpu: Result<(), Seq<char>>,
) -> Result<(Seq<u8>, Seq<char>), Seq<char>> {
    match report_outcome(report) {
        Err(e) => Err(e),
        Ok(facts) => match tdx_stage(facts, nonce, hardware, compose_of(report, parsed)) {
            Err(e) => Err(e),
            Ok(_) => if facts.gpu is Some && gpu is Err {
                Err(gpu->Err_0)
            } else if facts.gpu is None && facts.quote is None {
                Err(
                    "FATAL: No Intel TDX or NVIDIA payload found for hardware verification. Refusing to send unencrypted data."@,
                )
            } else {
                match montgomery_of(facts.key) {
                    None => Err("Invalid Ed25519 curve point"@),
                    Some(m) => Ok((m, facts.fingerprint)),
                }
            },
        },
    }
}

fn check_tdx(
    report: &Report,
    nonce: &[u8; 32],
    hardware: Result<(), String>,
    compose: &Option<String>,
) -> (r: Result<(), String>)
    ensures
        said(r) == tdx_stage(report@, nonce@, said(hardware), shown(*compose)),
{
    match &report.intel_quote {
        None => Ok(()),
        Some(digits) => match read_quote(digits.as_str()) {
            Err(e) => Err(e),
            Ok(quote) => check_quote(
                quote.as_slice(),
                &report.key,
                report.certificate.as_slice(),
                nonce,
                hardware,
                compose,
            ),
        },
    }
}

/// Decides on the key of a model. `hardware` is the verdict on the quote's signature, `gpu`
/// that on the GPU; each counts where the report holds what it is about.
pub fn near_ai_model_key(
    report: &Json,
    nonce: &[u8; 32],
    hardware: Result<(), String>,
    parsed: &Option<Json>,
    gpu: Result<(), String>,
) -> (r: Result<([u8; 32], String), String>)
    ensures
        match r {
            Ok(k) => key_outcome(report@, nonce@, said(hardware), told(*parsed), said(gpu)) == Ok::<
                (Seq<u8>, Seq<char>),
                Seq<char>,
            >((k.0@, k.1@)),
            Err(e) => key_outcome(report@, nonce@, said(hardware), told(*parsed), said(gpu))
                == Err::<(Seq<u8>, Seq<char>), Seq<char>>(e@),
        },
{
    let read = match read_report(report) {
        Ok(x) => x,
        Err(e) => {
            return Err(e);
        },
    };
    let compose = app_compose(report, parsed);
    match check_tdx(&read, nonce, hardware, &compose) {
        Ok(_) => {},
        Err(e) => {
            return Err(e);
        },
    }
    match &read.nvidia_payload {
        Some(_) => match gpu {
            Ok(_) => {},
            Err(e) => {
                return Err(e);
            },
        },
        None => {
            if read.intel_quote.is_none() {
                return Err(
                    "FATAL: No Intel TDX or NVIDIA payload found for hardware verification. Refusing to send unencrypted data.".to_string(),
                );
            }
        },
    }
    match edwards_to_montgomery(&read.key) {
        Some(m) => Ok((m, read.tls_fingerprint)),
        None => Err("Invalid Ed25519 curve point".to_string()),
    }
}

/// No key is used without evidence, none whose quote's signature does not hold, and none that
/// the enclave's quote does not bind, together with the certificate, to the nonce.
pub proof fn law_used_keys_are_attested(
    report: JsonValue,
    nonce: Seq<u8>,
    hardware: Result<(), Seq<char>>,
    parsed: Option<JsonValue>,
    gpu: Result<(), Seq<char>>,
)
    requires
        key_outcome(report, nonce, hardware, parsed, gpu) is Ok,
    ensures
        quote_text(report) is Some || gpu_text(report) is Some,
        gpu_text(report) is Some ==> gpu is Ok,
        quote_text(report) is Some ==> hardware is Ok && {
            let facts = report_outcome(report)->Ok_0;
            let quote = quote_bytes(quote_text(report)->0)->Ok_0;
            !is_debuggable(quote) && report_data(quote) == sha256_of(facts.key + facts.certificate)
                + nonce
        },
{
}

} // verus!
