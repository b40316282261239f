//! What goes along to the providers and comes back from them, and in which order things are
//! shown.

use vstd::prelude::*;

use crate::admission::Refused;
use crate::chutes_call;
use crate::chutes_e2ee;
use crate::chutes_e2ee::payload_with_key;
use crate::dns;
use crate::dns::UdpOutcome;
use crate::health::held_back;
use crate::health::ProviderHealthState;
use crate::json::elements_at;
use crate::json::field_of;
use crate::json::law_fields_keep_what_they_are_given;
use crate::json::lemma_key_at;
use crate::json::text_at;
use crate::json::JsonValue;
use crate::keys::plain_error_value;
use crate::landing_page::dearest_first;
use crate::landing_page::family;
use crate::landing_page::ids_of;
use crate::landing_page::is_featured;
use crate::landing_page::latest_first;
use crate::landing_page::picking;
use crate::landing_page::private_rest;
use crate::landing_page::rank_keys;
use crate::landing_page::spelling;
use crate::landing_page::texts_at;
use crate::landing_page::Picked;
use crate::models::lemma_stretch_runs;
use crate::models::model_info;
use crate::models::name_order;
use crate::models::name_parts;
use crate::models::parts_order;
use crate::models::text_order;
use crate::models::NamePart;
use crate::models_page::Shown;
use crate::nearai;
use crate::nearai::compose_of;
use crate::nearai_e2ee;
use crate::nearai_models::known_servers;
use crate::nearai_stream::error_said;
use crate::nearai_stream::unavailable_value;
use crate::order::by_key;
use crate::order::comes_before;
use crate::order::is_stable_order;
use crate::primitives::hex_of;
use crate::primitives::AgreementError;
use crate::primitives::KemError;
use crate::primitives::KemKeyError;
use crate::provider_laws::lemma_stands_in;
use crate::provider_laws::stands_in;
use crate::providers::providers_of;
use crate::providers::KeyTexts;
use crate::ranking::by_name_down;
use crate::redaction_roundtrip::lemma_decimal;
use crate::request_laws::first_says;
use crate::request_laws::law_first_entry_counts;
use crate::request_laws::says_nothing;
use crate::selection::sorted_by;
use crate::state::ModelFacts;
use crate::text::decimal;
use crate::text::has_prefix;
use crate::text::is_digit;
use crate::text::split_on;
use crate::text::trimmed_end;
use crate::text::unicode_lowercase;
use crate::time::days_before_month;
use crate::time::days_before_year;
use crate::tinfoil_relay::envelopes;
use crate::tinfoil_relay::event_in;
use crate::tinfoil_relay::headers_along;
use crate::tinfoil_relay::lines_in;
use crate::tinfoil_relay::model_after;
use crate::tinfoil_relay::readiness;
use crate::tinfoil_relay::relayed;
use crate::tinfoil_relay::rest_of;

verus! {

// ---------------------------------------------------------------------------
// The relay
// ---------------------------------------------------------------------------

/// The shielded provider is asked where it is configured, has a key and is not held back; else
/// the client is told which of these it is.
pub proof fn law_relay_needs_its_provider(h: ProviderHealthState, key: Seq<char>, now: u64)
    ensures
        readiness(None, now) == Some(
            Refused { status: 500, message: "Tinfoil provider is not configured."@ },
        ),
        held_back(h, now) ==> readiness(Some((h, key)), now) == Some(
            Refused {
                status: 503,
                message: "Tinfoil provider is currently rate-limited or unhealthy."@,
            },
        ),
        !held_back(h, now) && key.len() == 0 ==> readiness(Some((h, key)), now) == Some(
            Refused { status: 500, message: "Tinfoil API key is missing."@ },
        ),
        !held_back(h, now) && key.len() > 0 ==> readiness(Some((h, key)), now) is None,
{
}

/// What goes along with a relayed request: the type of what is sent, what the client takes if
/// it says so, and then every header of the client's own encryption, in its order.
pub proof fn law_envelopes_go_along(
    headers: Seq<(Seq<char>, Seq<char>)>,
    kind: Seq<char>,
    takes: Seq<char>,
    h: (Seq<char>, Seq<char>),
)
    ensures
        headers_along(headers)[0].0 == "Content-Type"@,
        first_says(headers, "content-type"@, kind) ==> headers_along(headers)[0].1 == kind,
        says_nothing(headers, "content-type"@) ==> headers_along(headers)[0].1
            == "application/json"@,
        first_says(headers, "accept"@, takes) ==> headers_along(headers)[1] == ("Accept"@, takes)
            && headers_along(headers).skip(2) == envelopes(headers),
        says_nothing(headers, "accept"@) ==> headers_along(headers).skip(1) == envelopes(headers),
        h.0 == "ehbp-encapsulated-key"@ || h.0 == "ehbp-response-nonce"@ ==> envelopes(
            headers.push(h),
        ) == envelopes(headers).push(h),
        h.0 != "ehbp-encapsulated-key"@ && h.0 != "ehbp-response-nonce"@ ==> envelopes(
            headers.push(h),
        ) == envelopes(headers),
        envelopes(seq![]).len() == 0,
{
    law_first_entry_counts(headers, "content-type"@, kind);
    law_first_entry_counts(headers, "accept"@, takes);
    assert(headers.push(h).drop_last() =~= headers);
    let all = headers_along(headers);
    if first_says(headers, "accept"@, takes) {
        assert(all.skip(2) =~= envelopes(headers));
    }
    if says_nothing(headers, "accept"@) {
        assert(all.skip(1) =~= envelopes(headers));
    }
}

/// A relayed text is cut at the ends of its lines; what stands behind the last one waits for
/// more.
pub proof fn law_lines_are_cut(line: Seq<char>, rest: Seq<char>)
    requires
        forall|i: int| 0 <= i < line.len() ==> #[trigger] line[i] != '\n' && line[i] != '\r',
        forall|i: int| 0 <= i < rest.len() ==> #[trigger] rest[i] != '\n',
    ensures
        rest_of(line + seq!['\n'] + rest) == rest,
        lines_in(line + seq!['\n'] + rest) == seq![line],
        lines_in(line + seq!['\r', '\n'] + rest) == seq![line],
        rest_of(rest) == rest,
        lines_in(rest).len() == 0,
{
    lemma_cut(line, rest);
    lemma_uncut(rest);
    let returned = line.push('\r');
    assert(forall|i: int| 0 <= i < returned.len() ==> #[trigger] returned[i] != '\n');
    lemma_cut(returned, rest);
    assert(line + seq!['\r', '\n'] + rest =~= returned + seq!['\n'] + rest);
    let one = seq![line, rest];
    assert(split_on(line + seq!['\n'] + rest, '\n') =~= one);
    assert(one.drop_last() =~= seq![line]);
    let two = seq![returned, rest];
    assert(split_on(returned + seq!['\n'] + rest, '\n') =~= two);
    assert(two.drop_last() =~= seq![returned]);
    reveal_strlit("\r");
    assert("\r"@ =~= seq!['\r']);
    crate::text_laws::law_copies_at_the_ends_go(line, "\r"@);
    assert(line + "\r"@ =~= returned);
    assert(crate::text::without_suffixes(line, "\r"@) == line) by {
        if crate::text::has_suffix(line, "\r"@) {
            assert(line.subrange(line.len() - 1, line.len() as int)[0] == line[line.len() - 1]);
        }
    }
    assert(lines_in(line + seq!['\n'] + rest) =~= seq![line]);
    assert(lines_in(line + seq!['\r', '\n'] + rest) =~= seq![line]);
    assert(split_on(rest, '\n').drop_last() =~= Seq::<Seq<char>>::empty());
}

proof fn lemma_uncut(s: Seq<char>)
    requires
        forall|i: int| 0 <= i < s.len() ==> #[trigger] s[i] != '\n',
    ensures
        split_on(s, '\n') == seq![s],
{
    crate::text::lemma_find_char(s, '\n', 0);
}

proof fn lemma_cut(a: Seq<char>, b: Seq<char>)
    requires
        forall|i: int| 0 <= i < a.len() ==> #[trigger] a[i] != '\n',
        forall|i: int| 0 <= i < b.len() ==> #[trigger] b[i] != '\n',
    ensures
        split_on(a + seq!['\n'] + b, '\n') == seq![a, b],
{
    let s = a + seq!['\n'] + b;
    crate::text::lemma_find_char(s, '\n', 0);
    assert(s[a.len() as int] == '\n');
    let i = crate::text::find_char(s, '\n', 0)->0;
    if i < a.len() {
        assert(s[i] == a[i]);
    }
    assert(i == a.len());
    assert(s.take(i) =~= a);
    assert(s.skip(i + 1) =~= b);
    lemma_uncut(b);
    assert(split_on(s, '\n') =~= seq![a, b]);
}

/// What is passed on of a relayed line: an empty line as it is, an event filled up, the end
/// filled up, and anything else as it is. An event is what stands behind "data: " where that
/// is not the end.
pub proof fn law_relayed_lines_are_filled(event: Seq<char>, filled: Seq<char>, other: Seq<char>)
    requires
        other.len() > 0,
        !has_prefix(other, "data: "@),
    ensures
        relayed(seq![], Some(filled)) == "\n"@,
        !stands_in("[DONE]"@, "data: "@ + event) ==> relayed("data: "@ + event, Some(filled))
            == trimmed_end(filled) + "\n"@ && relayed("data: "@ + event, None) == "data: "@ + event
            + "\n"@ && event_in("data: "@ + event) == Some(event),
        stands_in("[DONE]"@, "data: "@ + event) ==> relayed("data: "@ + event, Some(filled))
            == trimmed_end(crate::response::padded_line("data: "@ + event)) + "\n"@ && event_in(
            "data: "@ + event,
        ) is None,
        relayed(other, Some(filled)) == other + "\n"@,
        event_in(other) is None,
{
    reveal_strlit("data: ");
    let line = "data: "@ + event;
    assert(line.subrange(0, 6) =~= "data: "@);
    assert(line.skip(6) =~= event);
    lemma_stands_in("[DONE]"@, line);
}

/// The model of a relayed answer is the first that it names.
pub proof fn law_first_model_is_remembered(known: Seq<char>, event: JsonValue, m: Seq<char>)
    ensures
        known != "tinfoil-unknown"@ ==> model_after(known, event) == known,
        text_at(event, "model"@) == Some(m) ==> model_after("tinfoil-unknown"@, event) == m,
        text_at(event, "model"@) is None ==> model_after("tinfoil-unknown"@, event)
            == "tinfoil-unknown"@,
{
}

// ---------------------------------------------------------------------------
// Questions and errors
// ---------------------------------------------------------------------------

proof fn lemma_first(fields: Seq<(Seq<char>, JsonValue)>, k: int)
    requires
        0 <= k < fields.len(),
        forall|j: int| 0 <= j < k ==> (#[trigger] fields[j]).0 != fields[k].0,
    ensures
        JsonValue::Obj(fields).get(fields[k].0) == Some(fields[k].1),
{
    lemma_key_at(fields, fields[k].0, 0);
    assert(fields[k].0 == fields[k].0);
}

/// The service that checks GPUs is asked for the evidence that was given, with the nonce that
/// it has to be bound to.
pub proof fn law_gpu_questions_carry_their_nonce(
    evidence: JsonValue,
    list: Seq<JsonValue>,
    hash: Seq<u8>,
    payload: Seq<(Seq<char>, JsonValue)>,
    other: Seq<char>,
)
    ensures
        elements_at(evidence, "gpu_evidence"@) == Some(list) ==> {
            let q = chutes_call::gpu_question(evidence, hash);
            &&& q is Some
            &&& text_at(q->0, "nonce"@) == Some(hex_of(hash))
            &&& text_at(q->0, "arch"@) == Some("HOPPER"@)
            &&& elements_at(q->0, "evidence_list"@) == Some(list)
        },
        elements_at(evidence, "gpu_evidence"@) is None ==> chutes_call::gpu_question(evidence, hash)
            is None,
        text_at(nearai::gpu_question(JsonValue::Obj(payload), hash), "nonce"@) == Some(
            hex_of(hash),
        ),
        text_at(nearai::gpu_question(JsonValue::Obj(payload), hash), "arch"@) == Some("HOPPER"@),
        other != "nonce"@ && other != "arch"@ ==> nearai::gpu_question(
            JsonValue::Obj(payload),
            hash,
        ).get(other) == field_of(payload, other),
{
    reveal_strlit("nonce");
    reveal_strlit("arch");
    reveal_strlit("evidence_list");
    assert("nonce"@.len() == 5 && "arch"@.len() == 4 && "evidence_list"@.len() == 13);
    let nonce = JsonValue::Str(hex_of(hash));
    let arch = JsonValue::Str("HOPPER"@);
    let once = crate::json::with_field(payload, "nonce"@, nonce);
    law_fields_keep_what_they_are_given(payload, "nonce"@, nonce, other);
    law_fields_keep_what_they_are_given(once, "arch"@, arch, other);
    law_fields_keep_what_they_are_given(once, "arch"@, arch, "nonce"@);
    match elements_at(evidence, "gpu_evidence"@) {
        Some(l) => {
            let q = chutes_call::gpu_question(evidence, hash)->0->Obj_0;
            lemma_first(q, 0);
            lemma_first(q, 1);
            lemma_first(q, 2);
        },
        None => {},
    }
}

/// The software that an enclave shows is told in the report, or in a text in the report that
/// is read as a report of its own.
pub proof fn law_software_is_found(
    report: JsonValue,
    info: JsonValue,
    tcb: JsonValue,
    parsed: Option<JsonValue>,
)
    requires
        report.get("info"@) == Some(info),
        info.get("tcb_info"@) == Some(tcb),
    ensures
        !(tcb is Str) ==> compose_of(report, parsed) == text_at(tcb, "app_compose"@),
        tcb is Str && parsed is Some ==> compose_of(report, parsed) == text_at(
            parsed->0,
            "app_compose"@,
        ),
        tcb is Str && parsed is None ==> compose_of(report, parsed) is None,
{
}

/// A request to an instance says with which key the answer is to be sealed, and otherwise what
/// it said.
pub proof fn law_requests_carry_the_answer_key(
    payload: Seq<(Seq<char>, JsonValue)>,
    public: Seq<char>,
    other: Seq<char>,
)
    ensures
        text_at(payload_with_key(JsonValue::Obj(payload), public), "e2e_response_pk"@) == Some(
            public,
        ),
        other != "e2e_response_pk"@ ==> payload_with_key(JsonValue::Obj(payload), public).get(other)
            == field_of(payload, other),
{
    law_fields_keep_what_they_are_given(
        payload,
        "e2e_response_pk"@,
        JsonValue::Str(public),
        other,
    );
}

/// What a client is told of a provider that cannot be had, and what a provider said of its
/// own error.
pub proof fn law_errors_say_what_is_wrong(message: Seq<char>, answer: JsonValue, error: JsonValue)
    ensures
        unavailable_value(message).get("error"@) is Some,
        text_at(unavailable_value(message).get("error"@)->0, "message"@) == Some(message),
        text_at(unavailable_value(message).get("error"@)->0, "type"@) == Some(
            "service_unavailable"@,
        ),
        text_at(unavailable_value(message).get("error"@)->0, "code"@) == Some(
            "provider_unavailable"@,
        ),
        text_at(plain_error_value(message), "error"@) == Some(message),
        answer.get("error"@) == Some(error) && text_at(error, "message"@) is Some ==> Some(
            error_said(answer, message),
        ) == text_at(error, "message"@),
        answer.get("error"@) == Some(error) && text_at(error, "message"@) is None ==> error_said(
            answer,
            message,
        ) == message,
        answer.get("error"@) is None ==> error_said(answer, message) == message,
{
    reveal_strlit("message");
    reveal_strlit("type");
    reveal_strlit("param");
    reveal_strlit("code");
    assert("message"@.len() == 7 && "type"@.len() == 4 && "param"@.len() == 5 && "code"@.len()
        == 4);
    assert("type"@[0] == 't' && "code"@[0] == 'c');
    let outer = unavailable_value(message)->Obj_0;
    lemma_first(outer, 0);
    let inner = outer[0].1->Obj_0;
    lemma_first(inner, 0);
    lemma_first(inner, 1);
    lemma_first(inner, 3);
    lemma_first(plain_error_value(message)->Obj_0, 0);
}

/// A model that a provider knows is asked for as it is known there; any other is an error that
/// names it.
pub proof fn law_unknown_models_are_named(
    models: Seq<(Seq<char>, ModelFacts)>,
    name: Seq<char>,
    facts: ModelFacts,
)
    ensures
        first_says(models, name, facts) ==> model_info(models, name) == Ok::<
            ModelFacts,
            Seq<char>,
        >(facts),
        says_nothing(models, name) ==> model_info(models, name) == Err::<ModelFacts, Seq<char>>(
            "Model "@ + name + " not dynamically configured"@,
        ),
{
    law_first_entry_counts(models, name, facts);
}

// ---------------------------------------------------------------------------
// Tables
// ---------------------------------------------------------------------------

/// The five providers: their addresses, their keys, their ratings and what they promise.
pub proof fn law_providers_are_configured(keys: KeyTexts, product: Seq<char>)
    ensures
        ({
            let p = providers_of(keys, product);
            &&& p.len() == 5
            &&& p[0].id == "near-ai"@ && p[0].endpoint
                == "https://cloud-api.near.ai/v1/chat/completions"@ && p[0].api_key == keys.near_ai
                && p[0].rating == 5 && p[0].enclave
            &&& p[1].id == "chutes"@ && p[1].endpoint == "https://llm.chutes.ai/v1/chat/completions"@
                && p[1].api_key == keys.chutes && p[1].rating == 5 && p[1].enclave
            &&& p[2].id == "redpill"@ && p[2].endpoint
                == "https://api.redpill.ai/v1/chat/completions"@ && p[2].api_key == keys.redpill
                && p[2].rating == 4 && p[2].enclave
            &&& p[3].id == "infomaniak"@ && p[3].endpoint == "https://api.infomaniak.com/2/ai/"@
                + product + "/openai/v1/chat/completions"@ && p[3].api_key == keys.infomaniak
                && p[3].rating == 4 && !p[3].enclave
            &&& p[4].id == "tinfoil"@ && p[4].endpoint
                == "https://inference.tinfoil.sh/v1/chat/completions"@ && p[4].api_key
                == keys.tinfoil && p[4].rating == 5 && p[4].enclave
            &&& forall|i: int|
                0 <= i < 5 ==> (#[trigger] p[i]).keeps_nothing && p[i].shares_nothing
            &&& forall|i: int|
                0 <= i < 5 ==> (#[trigger] p[i]).country == (if i == 3 {
                    "CH"@
                } else {
                    "US"@
                })
        }),
{
}

/// The servers that are known without asking.
pub proof fn law_servers_are_known()
    ensures
        ({
            let s = known_servers();
            &&& s.len() == 13
            &&& s.contains(
                ("flux2-klein.completions.near.ai"@, "black-forest-labs/FLUX.2-klein-4B"@),
            )
            &&& s.contains(("gemma-4-31b.completions.near.ai"@, "google/gemma-4-31B-it"@))
            &&& s.contains(("glm-5-1.completions.near.ai"@, "zai-org/GLM-5.1-FP8"@))
            &&& s.contains(("glm-5.completions.near.ai"@, "zai-org/GLM-5-FP8"@))
            &&& s.contains(("gpt-oss-120b.completions.near.ai"@, "openai/gpt-oss-120b"@))
            &&& s.contains(("privacy-filter.completions.near.ai"@, "openai/privacy-filter"@))
            &&& s.contains(
                ("qwen3-30b.completions.near.ai"@, "Qwen/Qwen3-30B-A3B-Instruct-2507"@),
            )
            &&& s.contains(("qwen3-6-35b.completions.near.ai"@, "Qwen/Qwen3.6-35B-A3B-FP8"@))
            &&& s.contains(("qwen3-embedding.completions.near.ai"@, "Qwen/Qwen3-Embedding-0.6B"@))
            &&& s.contains(("qwen3-reranker.completions.near.ai"@, "Qwen/Qwen3-Reranker-0.6B"@))
            &&& s.contains(("qwen3-vl-30b.completions.near.ai"@, "Qwen/Qwen3-VL-30B-A3B-Instruct"@))
            &&& s.contains(("qwen35-122b.completions.near.ai"@, "Qwen/Qwen3.5-122B-A10B"@))
            &&& s.contains(("whisper-large-v3.completions.near.ai"@, "openai/whisper-large-v3"@))
        }),
{
    let s = known_servers();
    assert(s[0] == ("flux2-klein.completions.near.ai"@, "black-forest-labs/FLUX.2-klein-4B"@));
    assert(s[1] == ("gemma-4-31b.completions.near.ai"@, "google/gemma-4-31B-it"@));
    assert(s[2] == ("glm-5-1.completions.near.ai"@, "zai-org/GLM-5.1-FP8"@));
    assert(s[3] == ("glm-5.completions.near.ai"@, "zai-org/GLM-5-FP8"@));
    assert(s[4] == ("gpt-oss-120b.completions.near.ai"@, "openai/gpt-oss-120b"@));
    assert(s[5] == ("privacy-filter.completions.near.ai"@, "openai/privacy-filter"@));
    assert(s[6] == ("qwen3-30b.completions.near.ai"@, "Qwen/Qwen3-30B-A3B-Instruct-2507"@));
    assert(s[7] == ("qwen3-6-35b.completions.near.ai"@, "Qwen/Qwen3.6-35B-A3B-FP8"@));
    assert(s[8] == ("qwen3-embedding.completions.near.ai"@, "Qwen/Qwen3-Embedding-0.6B"@));
    assert(s[9] == ("qwen3-reranker.completions.near.ai"@, "Qwen/Qwen3-Reranker-0.6B"@));
    assert(s[10] == ("qwen3-vl-30b.completions.near.ai"@, "Qwen/Qwen3-VL-30B-A3B-Instruct"@));
    assert(s[11] == ("qwen35-122b.completions.near.ai"@, "Qwen/Qwen3.5-122B-A10B"@));
    assert(s[12] == ("whisper-large-v3.completions.near.ai"@, "openai/whisper-large-v3"@));
}

// ---------------------------------------------------------------------------
// Orders
// ---------------------------------------------------------------------------

/// Whether a text is not empty and holds no digit.
pub open spec fn is_digitless(s: Seq<char>) -> bool {
    s.len() > 0 && forall|i: int| 0 <= i < s.len() ==> !is_digit(#[trigger] s[i])
}

/// The parts of a name that is a text and a number behind it.
proof fn lemma_numbered(a: Seq<char>, x: u64)
    requires
        is_digitless(a),
    ensures
        name_parts(a + decimal(x as nat), 0) == seq![
            NamePart::Text(unicode_lowercase(a)),
            NamePart::Num(x),
        ],
        name_parts(a, 0) == seq![NamePart::Text(unicode_lowercase(a))],
{
    let d = decimal(x as nat);
    lemma_decimal(x as nat);
    let s = a + d;
    let n = a.len() as int;
    let len = s.len() as int;
    reveal_with_fuel(name_parts, 3);
    assert forall|j: int| 1 <= j < n implies is_digit(#[trigger] s[j]) == false by {
        assert(s[j] == a[j]);
    }
    assert(s[0] == a[0] && !is_digit(a[0]));
    assert(s[n] == d[0] && is_digit(d[0]));
    lemma_stretch_runs(s, 1, n, false);
    assert(s.subrange(0, n) =~= a);
    assert forall|j: int| n + 1 <= j < len implies is_digit(#[trigger] s[j]) == true by {
        assert(s[j] == d[j - n]);
        assert(is_digit(d[j - n]));
    }
    lemma_stretch_runs(s, n + 1, len, true);
    assert(s.subrange(n, len) =~= d);
    assert(name_parts(s, len) =~= Seq::<NamePart>::empty());
    assert(name_parts(s, n) =~= seq![NamePart::Num(x)]);
    assert(name_parts(s, 0) =~= seq![NamePart::Text(unicode_lowercase(a)), NamePart::Num(x)]);
    assert forall|j: int| 1 <= j < n implies is_digit(#[trigger] a[j]) == false by {}
    lemma_stretch_runs(a, 1, n, false);
    assert(a.subrange(0, n) =~= a);
    assert(name_parts(a, n) =~= Seq::<NamePart>::empty());
    assert(name_parts(a, 0) =~= seq![NamePart::Text(unicode_lowercase(a))]);
}

/// Numbers in names are compared as numbers, however many digits they have; a name without
/// the number comes before those with one.
pub proof fn law_numbers_in_names_count(a: Seq<char>, x: u64, y: u64)
    requires
        is_digitless(a),
    ensures
        x < y ==> name_order(a + decimal(x as nat), a + decimal(y as nat)) == -1,
        x == y ==> name_order(a + decimal(x as nat), a + decimal(y as nat)) == 0,
        x > y ==> name_order(a + decimal(x as nat), a + decimal(y as nat)) == 1,
        name_order(a, a + decimal(x as nat)) == -1,
{
    lemma_numbered(a, x);
    lemma_numbered(a, y);
    reveal_with_fuel(parts_order, 4);
    lemma_same_text(unicode_lowercase(a), 0);
}

proof fn lemma_same_text(a: Seq<char>, i: int)
    requires
        0 <= i,
    ensures
        text_order(a, a, i) == 0,
    decreases a.len() - i,
{
    if i < a.len() {
        lemma_same_text(a, i + 1);
    }
}

/// Texts are compared by the first character in which they differ, and one that the other
/// begins with comes first; in names, letters of either case count the same.
pub proof fn law_texts_are_compared(
    head: Seq<char>,
    x: char,
    y: char,
    one: Seq<char>,
    other: Seq<char>,
    a: Seq<char>,
    b: Seq<char>,
)
    requires
        x < y,
        is_digitless(a),
        is_digitless(b),
    ensures
        text_order(head + seq![x] + one, head + seq![y] + other, 0) == -1,
        text_order(head + seq![y] + other, head + seq![x] + one, 0) == 1,
        text_order(head, head + seq![x] + one, 0) == -1,
        name_order(a, b) == text_order(unicode_lowercase(a), unicode_lowercase(b), 0),
{
    let p = head + seq![x] + one;
    let q = head + seq![y] + other;
    let n = head.len() as int;
    assert(p[n] == x && q[n] == y);
    assert forall|j: int| 0 <= j < n implies p[j] == q[j] && p[j] == head[j] by {}
    lemma_alike(p, q, 0, n);
    lemma_alike(q, p, 0, n);
    lemma_alike(head, p, 0, n);
    lemma_numbered(a, 0);
    lemma_numbered(b, 0);
    reveal_with_fuel(parts_order, 3);
}

proof fn lemma_alike(p: Seq<char>, q: Seq<char>, i: int, n: int)
    requires
        0 <= i <= n,
        n <= p.len(),
        n <= q.len(),
        forall|j: int| 0 <= j < n ==> p[j] == q[j],
    ensures
        text_order(p, q, i) == text_order(p, q, n),
    decreases n - i,
{
    if i < n {
        lemma_alike(p, q, i + 1, n);
    }
}

/// What is ordered by keys comes in the order of the keys, the smallest first.
pub proof fn law_smaller_keys_come_first(
    out: Seq<int>,
    c: Seq<int>,
    keys: Seq<u32>,
    i: int,
    j: int,
)
    requires
        sorted_by(out, c, keys),
        keys.len() == c.len(),
        0 <= i < j < out.len(),
    ensures
        exists|x: int, y: int|
            0 <= x < c.len() && 0 <= y < c.len() && x != y && #[trigger] c[x] == out[i]
                && #[trigger] c[y] == out[j] && keys[x] <= keys[y],
{
    let p = choose|p: Seq<usize>| #[trigger]
        is_stable_order(p, c.len() as int, by_key(keys)) && out.len() == c.len() && forall|i: int|
            0 <= i < c.len() ==> #[trigger] out[i] == c[p[i] as int];
    let x = p[i] as int;
    let y = p[j] as int;
    assert(p[i] < c.len() && p[j] < c.len());
    assert(comes_before(by_key(keys), x, y));
    assert(!by_key(keys)(x, y));
    assert(c[x] == out[i] && c[y] == out[j]);
}

/// Of the models of a family none is taken before one whose name is greater: the latest come
/// first.
pub proof fn law_latest_models_are_featured(
    out: Seq<int>,
    ids: Seq<Seq<char>>,
    prefix: Seq<char>,
    i: int,
    j: int,
)
    requires
        latest_first(out, ids, prefix),
        0 <= i < j < out.len(),
    ensures
        name_order(ids[out[j]], ids[out[i]]) != 1,
{
    let c = family(ids, prefix, ids.len() as int);
    let gt = by_name_down(texts_at(ids, c));
    let p = choose|p: Seq<usize>| #[trigger]
        is_stable_order(p, c.len() as int, gt) && out.len() == c.len() && forall|i: int|
            0 <= i < c.len() ==> #[trigger] out[i] == c[p[i] as int];
    assert(p[i] < c.len() && p[j] < c.len());
    assert(comes_before(gt, p[i] as int, p[j] as int));
    assert(!gt(p[i] as int, p[j] as int));
    assert(out[i] == c[p[i] as int] && out[j] == c[p[j] as int]);
}

/// Of the private rest the dearest comes first.
pub proof fn law_dearest_models_come_first(
    out: Seq<int>,
    v: Seq<(Seq<char>, Shown)>,
    seen: Seq<Seq<char>>,
    ranks: Seq<u32>,
    i: int,
    j: int,
)
    requires
        dearest_first(out, v, seen, ranks),
        0 <= i < j < out.len(),
    ensures
        ranks[out[i]] >= ranks[out[j]],
{
    let c = private_rest(v, seen, v.len() as int);
    let gt = by_key(rank_keys(c, ranks));
    let p = choose|p: Seq<usize>| #[trigger]
        is_stable_order(p, c.len() as int, gt) && out.len() == c.len() && forall|i: int|
            0 <= i < c.len() ==> #[trigger] out[i] == c[p[i] as int];
    assert(p[i] < c.len() && p[j] < c.len());
    assert(comes_before(gt, p[i] as int, p[j] as int));
    assert(!gt(p[i] as int, p[j] as int));
    assert(out[i] == c[p[i] as int] && out[j] == c[p[j] as int]);
}

/// A year has 366 days where it is divisible by four, but by a hundred only where by four
/// hundred; and its months have the days that they have.
pub proof fn law_years_and_months_have_their_days(year: int)
    requires
        year >= 1970,
    ensures
        ({
            let long = (year % 4 == 0 && year % 100 != 0) || year % 400 == 0;
            let more = if long {
                1int
            } else {
                0
            };
            &&& days_before_year(year + 1) - days_before_year(year) == 365 + more
            &&& days_before_month(year, 1) == 0
            &&& days_before_month(year, 2) == 31
            &&& days_before_month(year, 3) == 59 + more
            &&& days_before_month(year, 4) == 90 + more
            &&& days_before_month(year, 5) == 120 + more
            &&& days_before_month(year, 6) == 151 + more
            &&& days_before_month(year, 7) == 181 + more
            &&& days_before_month(year, 8) == 212 + more
            &&& days_before_month(year, 9) == 243 + more
            &&& days_before_month(year, 10) == 273 + more
            &&& days_before_month(year, 11) == 304 + more
            &&& days_before_month(year, 12) == 334 + more
        }),
        days_before_year(1970) == 0,
{
    reveal_with_fuel(days_before_month, 13);
    reveal_with_fuel(days_before_year, 2);
}

/// The featured models are two of each of two families, the latest ones, and private ones
/// until there are six.
pub proof fn law_six_models_are_featured(
    out: Seq<int>,
    v: Seq<(Seq<char>, Shown)>,
    ranks: Seq<u32>,
    glm: Seq<int>,
    kimi: Seq<int>,
    rest: Seq<int>,
)
    requires
        is_featured(out, v, ranks, glm, kimi, rest),
    ensures
        ({
            let ids = ids_of(v);
            let none = Picked { places: seq![], seen: seq![] };
            let first = picking(glm, 0, 2, ids, none);
            let second = picking(kimi, 0, 2, ids, first);
            &&& latest_first(glm, ids, "glm"@)
            &&& latest_first(kimi, ids, "kimi"@)
            &&& dearest_first(rest, v, second.seen, ranks)
            &&& first.places.len() <= 2
            &&& second.places.len() <= 4
            &&& out.len() <= 6
            &&& first.places.is_prefix_of(out)
            &&& second.places.is_prefix_of(out)
        }),
{
    let ids = ids_of(v);
    let none = Picked { places: seq![], seen: seq![] };
    let first = picking(glm, 0, 2, ids, none);
    let second = picking(kimi, 0, 2, ids, first);
    lemma_picking(glm, 0, 2, ids, none);
    lemma_picking(kimi, 0, 2, ids, first);
    lemma_picking(rest, 0, 6 - second.places.len(), ids, second);
    assert(first.places =~= out.subrange(0, first.places.len() as int)) by {
        assert(second.places.subrange(0, first.places.len() as int) =~= first.places);
    }
}

proof fn lemma_picking(from: Seq<int>, k: int, count: int, ids: Seq<Seq<char>>, p: Picked)
    requires
        0 <= k <= from.len(),
        0 <= count,
    ensures
        picking(from, k, count, ids, p).places.len() <= p.places.len() + count,
        p.places.is_prefix_of(picking(from, k, count, ids, p).places),
    decreases from.len() - k,
{
    let all = picking(from, k, count, ids, p).places;
    if k < from.len() && count > 0 {
        let s = spelling(ids[from[k]]);
        if p.seen.contains(s) {
            lemma_picking(from, k + 1, count, ids, p);
        } else {
            let next = Picked { places: p.places.push(from[k]), seen: p.seen.push(s) };
            lemma_picking(from, k + 1, count - 1, ids, next);
            assert(p.places =~= all.subrange(0, p.places.len() as int)) by {
                assert(next.places =~= all.subrange(0, next.places.len() as int));
                assert(next.places.subrange(0, p.places.len() as int) =~= p.places);
            }
        }
    } else {
        assert(p.places =~= all.subrange(0, p.places.len() as int));
    }
}

// ---------------------------------------------------------------------------
// Failures
// ---------------------------------------------------------------------------

/// What is said of each way in which sealing can fail.
pub proof fn law_failures_have_their_texts(why: Seq<char>)
    ensures
        chutes_e2ee::key_failure(KemKeyError::Generate)
            == "ML-KEM-768 response keypair generation failed"@,
        chutes_e2ee::key_failure(KemKeyError::Encapsulation)
            == "Failed to derive response encapsulation key"@,
        chutes_e2ee::key_failure(KemKeyError::Export)
            == "Failed to export response public key bytes"@,
        chutes_e2ee::encapsulation_failure(KemError::BadKey)
            == "Invalid ML-KEM-768 public key from instance"@,
        chutes_e2ee::encapsulation_failure(KemError::Failed) == "ML-KEM-768 encapsulation failed"@,
        chutes_e2ee::compress_failure((true, why)) == "Gzip compress finish: "@ + why,
        chutes_e2ee::compress_failure((false, why)) == "Gzip compress write: "@ + why,
        nearai_e2ee::agreement_failure(AgreementError::Generate)
            == "Failed to generate ephemeral key: Unspecified"@,
        nearai_e2ee::agreement_failure(AgreementError::PublicKey)
            == "Failed to compute public key: Unspecified"@,
        nearai_e2ee::agreement_failure(AgreementError::Agree) == "Failed DH agreement"@,
        dns::agreement_failure(AgreementError::Generate)
            == "Failed to generate client private key: Unspecified"@,
        dns::agreement_failure(AgreementError::PublicKey)
            == "Failed to compute client public key: Unspecified"@,
        dns::agreement_failure(AgreementError::Agree) == "X25519 agreement failed: Unspecified"@,
{
}

/// What is said of a query to which no answer came.
pub proof fn law_unanswered_queries_are_told(answer: Vec<u8>, why: String)
    ensures
        dns::udp_failure(UdpOutcome::Answer(answer)) is None,
        dns::udp_failure(UdpOutcome::NotSent(why)) == Some("UDP send failed: "@ + why@),
        dns::udp_failure(UdpOutcome::NotReceived(why)) == Some("UDP recv failed: "@ + why@),
        dns::udp_failure(UdpOutcome::TimedOut) == Some("UDP query timed out"@),
{
}

} // verus!
