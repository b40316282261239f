//! What a provider answers, made fit for the client: only known fields, the client's own
//! names, hidden texts put back, and lengths that tell nothing.

use vstd::prelude::*;
use vstd::utf8::encode_utf8;

use crate::crypto_e2ee::chunk_opened;
use crate::crypto_e2ee::chunk_text;
use crate::crypto_e2ee::next_key;
use crate::crypto_e2ee::StreamRatchet;
use crate::json::elements_at;
use crate::json::field_of;
use crate::json::fields_of;
use crate::json::find_key;
use crate::json::key_at;
use crate::json::lemma_array_view;
use crate::json::lemma_key_at;
use crate::json::lemma_object_view;
use crate::json::set_field;
use crate::json::values_of;
use crate::json::with_field;
use crate::json::Json;
use crate::json::JsonValue;
use crate::primitives::gcm_max_plaintext;
use crate::primitives::gen_random_bytes;
use crate::primitives::hex_encode;
use crate::primitives::hex_of;
use crate::redaction::stream_step;
use crate::redaction::StreamingUnredactor;
use crate::text;
use crate::text::byte_len;
use crate::text::string_of_all;

verus! {

// ---------------------------------------------------------------------------
// Identifiers
// ---------------------------------------------------------------------------

/// The identifier of a completion for some random bytes.
pub fn chat_id_from(bytes: &[u8; 16]) -> (r: String)
    ensures
        r@ == "chatcmpl-"@ + hex_of(bytes@),
{
    let hex = hex_encode(bytes.as_slice());
    text::cat2("chatcmpl-", hex.as_str())
}

/// A fresh identifier of a completion; `None` where no randomness can be had.
pub fn generate_chat_id() -> (r: Option<String>)
    ensures
        r matches Some(id) ==> exists|bytes: Seq<u8>|
            bytes.len() == 16 && id@ == "chatcmpl-"@ + #[trigger] hex_of(bytes),
{
    match gen_random_bytes::<16>() {
        Some(bytes) => {
            proof {
                assert(bytes@.len() == 16);
            }
            Some(chat_id_from(&bytes))
        },
        None => None,
    }
}

// ---------------------------------------------------------------------------
// Putting hidden texts back
// ---------------------------------------------------------------------------

/// How far putting hidden texts back has come: what is hidden, and what is kept back.
#[verifier::ext_equal]
pub struct Unredacting {
    pub entries: Seq<(Seq<char>, Seq<char>)>,
    pub kept: Seq<char>,
}

/// The state of an unredactor, if there is one.
pub open spec fn unredacting(u: Option<StreamingUnredactor>) -> Option<Unredacting> {
    match u {
        Some(s) => Some(Unredacting { entries: s.source().entries(), kept: s.kept() }),
        None => None,
    }
}

/// A text with the hidden texts put back, and the state afterwards. At the end of a message
/// nothing is kept back.
pub open spec fn unredacted(st: Option<Unredacting>, s: Seq<char>, end: bool) -> (
    Seq<char>,
    Option<Unredacting>,
) {
    match st {
        None => (s, None),
        Some(u) => {
            let (out, kept) = if u.entries.len() == 0 {
                (s, u.kept)
            } else {
                stream_step(u.entries, u.kept + s)
            };
            if end {
                (out + kept, Some(Unredacting { kept: seq![], ..u }))
            } else {
                (out, Some(Unredacting { kept, ..u }))
            }
        },
    }
}

fn unredact_text(u: &mut Option<StreamingUnredactor>, s: &str, end: bool) -> (r: String)
    ensures
        (r@, unredacting(*final(u))) == unredacted(unredacting(*old(u)), s@, end),
{
    match u {
        None => s.to_string(),
        Some(x) => {
            let mut out = x.process_chunk(s);
            if end {
                let rest = x.flush();
                out = text::cat2(out.as_str(), rest.as_str());
            }
            out
        },
    }
}

// ---------------------------------------------------------------------------
// Only known fields
// ---------------------------------------------------------------------------

/// The named fields that are there, in the order of the names.
pub open spec fn picked(
    fields: Seq<(Seq<char>, JsonValue)>,
    names: Seq<Seq<char>>,
) -> Seq<(Seq<char>, JsonValue)>
    decreases names.len(),
{
    if names.len() == 0 {
        seq![]
    } else {
        let before = picked(fields, names.drop_last());
        match field_of(fields, names.last()) {
            Some(v) => before.push((names.last(), v)),
            None => before,
        }
    }
}

/// The fields of the root that are passed on.
pub open spec fn root_names() -> Seq<Seq<char>> {
    seq!["object"@, "created"@, "system_fingerprint"@]
}

/// The fields of a choice that are passed on.
pub open spec fn choice_names() -> Seq<Seq<char>> {
    seq!["index"@, "finish_reason"@, "logprobs"@]
}

/// The fields of the usage that are passed on.
pub open spec fn usage_names() -> Seq<Seq<char>> {
    seq!["prompt_tokens"@, "completion_tokens"@, "total_tokens"@]
}

/// A value in which a text has the hidden texts put back.
pub open spec fn with_text_restored(st: Option<Unredacting>, v: JsonValue, end: bool) -> (
    JsonValue,
    Option<Unredacting>,
) {
    match v {
        JsonValue::Str(s) => {
            let (out, after) = unredacted(st, s, end);
            (JsonValue::Str(out), after)
        },
        _ => (v, st),
    }
}

/// The reasoning of a message: under either of its names, the shorter one first.
pub open spec fn reasoning_of(fields: Seq<(Seq<char>, JsonValue)>) -> Option<JsonValue> {
    match field_of(fields, "reasoning"@) {
        Some(v) => Some(v),
        None => field_of(fields, "reasoning_content"@),
    }
}

/// A message, or a piece of one, with its known fields: the reasoning, the role, the content,
/// calls and a refusal. The texts of reasoning and content have the hidden texts put back.
pub open spec fn clean_message(
    fields: Seq<(Seq<char>, JsonValue)>,
    st: Option<Unredacting>,
    end: bool,
) -> (Seq<(Seq<char>, JsonValue)>, Option<Unredacting>) {
    let (first, st1) = match reasoning_of(fields) {
        Some(v) => {
            let (shown, after) = with_text_restored(st, v, end);
            (seq![("reasoning_content"@, shown)], after)
        },
        None => (seq![], st),
    };
    let with_role = first + picked(fields, seq!["role"@]);
    let (with_content, st2) = match field_of(fields, "content"@) {
        Some(v) => {
            let (shown, after) = with_text_restored(st1, v, end);
            (with_role.push(("content"@, shown)), after)
        },
        None => (with_role, st1),
    };
    (
        with_content + picked(fields, seq!["tool_calls"@, "function_call"@, "refusal"@]),
        st2,
    )
}

/// A choice with its known fields. A whole message ends what was kept back; a piece of one
/// does not.
pub open spec fn clean_choice(fields: Seq<(Seq<char>, JsonValue)>, st: Option<Unredacting>) -> (
    Seq<(Seq<char>, JsonValue)>,
    Option<Unredacting>,
) {
    let start = picked(fields, choice_names());
    let (with_message, st1) = match field_of(fields, "message"@) {
        Some(JsonValue::Obj(m)) => {
            let (clean, after) = clean_message(m, st, true);
            (start.push(("message"@, JsonValue::Obj(clean))), after)
        },
        _ => (start, st),
    };
    match field_of(fields, "delta"@) {
        Some(JsonValue::Obj(d)) => {
            let (clean, after) = clean_message(d, st1, false);
            (with_message.push(("delta"@, JsonValue::Obj(clean))), after)
        },
        _ => (with_message, st1),
    }
}

/// The choices with their known fields. What is no object is left out.
pub open spec fn clean_choices(choices: Seq<JsonValue>, st: Option<Unredacting>) -> (
    Seq<JsonValue>,
    Option<Unredacting>,
)
    decreases choices.len(),
{
    if choices.len() == 0 {
        (seq![], st)
    } else {
        let (before, st1) = clean_choices(choices.drop_last(), st);
        match choices.last() {
            JsonValue::Obj(fields) => {
                let (clean, st2) = clean_choice(fields, st1);
                (before.push(JsonValue::Obj(clean)), st2)
            },
            _ => (before, st1),
        }
    }
}

/// What is passed on of an answer: known fields, the client's identifier and model, the
/// provider's name, the choices, and the usage with its cost. Of what is no object, nothing.
pub open spec fn clean_answer(
    original: JsonValue,
    chat_id: Seq<char>,
    requested_model: Seq<char>,
    provider_id: Seq<char>,
    cost: JsonValue,
    st: Option<Unredacting>,
) -> (JsonValue, Option<Unredacting>) {
    match original {
        JsonValue::Obj(fields) => {
            let root = picked(fields, root_names()).push(("id"@, JsonValue::Str(chat_id))).push(
                ("model"@, JsonValue::Str(requested_model)),
            ).push(("provider"@, JsonValue::Str(provider_id)));
            let (with_choices, after) = match field_of(fields, "choices"@) {
                Some(JsonValue::Arr(choices)) => {
                    let (clean, after) = clean_choices(choices, st);
                    (root.push(("choices"@, JsonValue::Arr(clean))), after)
                },
                _ => (root, st),
            };
            let all = match field_of(fields, "usage"@) {
                Some(JsonValue::Obj(usage)) => with_choices.push(
                    ("usage"@, JsonValue::Obj(picked(usage, usage_names()).push(("cost"@, cost)))),
                ),
                _ => with_choices,
            };
            (JsonValue::Obj(all), after)
        },
        _ => (JsonValue::Obj(seq![]), st),
    }
}

/// The counts of tokens from which the cost of an answer is computed: those of the prompt
/// and of the completion, where the answer states its usage.
pub open spec fn stated_tokens(original: JsonValue) -> Option<
    (Option<JsonValue>, Option<JsonValue>),
> {
    match original.get("usage"@) {
        Some(JsonValue::Obj(usage)) => Some(
            (field_of(usage, "prompt_tokens"@), field_of(usage, "completion_tokens"@)),
        ),
        _ => None,
    }
}

/// Whether an event of a stream tells only the usage.
pub open spec fn is_usage_only(event: JsonValue) -> bool {
    event.get("usage"@) is Some && match elements_at(event, "choices"@) {
        Some(choices) => choices.len() == 0,
        None => true,
    }
}

/// Whether an event of a stream goes to the client: one that tells only the usage does where
/// the client asked for that.
pub fn is_delivered(event: &Json, client_wants_usage: bool) -> (r: bool)
    ensures
        r == (client_wants_usage || !is_usage_only(event@)),
{
    let told = match event.get("usage") {
        Some(_) => true,
        None => false,
    };
    let bare = match event.elements_at("choices") {
        Some(choices) => choices.len() == 0,
        None => true,
    };
    client_wants_usage || !(told && bare)
}

fn push_field(fields: &mut Vec<(String, Json)>, key: &str, value: Json)
    ensures
        fields_of(final(fields)@) == fields_of(old(fields)@).push((key@, value@)),
{
    let ghost before = fields_of(fields@);
    let name = key.to_string();
    fields.push((name, value));
    proof {
        assert(fields_of(fields@) =~= before.push((key@, value@)));
    }
}

/// Passes one field on, if it is there.
fn pick(out: &mut Vec<(String, Json)>, fields: &Vec<(String, Json)>, name: &str)
    ensures
        fields_of(final(out)@) == (match field_of(fields_of(fields@), name@) {
            Some(v) => fields_of(old(out)@).push((name@, v)),
            None => fields_of(old(out)@),
        }),
{
    match find_key(fields, name) {
        Some(i) => {
            let value = fields[i].1.copy();
            push_field(out, name, value);
        },
        None => {},
    }
}

/// Passes three fields on, as far as they are there.
fn pick_three(
    out: &mut Vec<(String, Json)>,
    fields: &Vec<(String, Json)>,
    a: &str,
    b: &str,
    c: &str,
)
    ensures
        fields_of(final(out)@) == fields_of(old(out)@) + picked(
            fields_of(fields@),
            seq![a@, b@, c@],
        ),
{
    let ghost before = fields_of(out@);
    let ghost all = fields_of(fields@);
    pick(out, fields, a);
    pick(out, fields, b);
    pick(out, fields, c);
    proof {
        let n3 = seq![a@, b@, c@];
        assert(n3.drop_last() =~= seq![a@, b@]);
        assert(seq![a@, b@].drop_last() =~= seq![a@]);
        assert(seq![a@].drop_last() =~= Seq::<Seq<char>>::empty());
        reveal_with_fuel(picked, 4);
        assert(fields_of(out@) =~= before + picked(all, n3));
    }
}

/// A value in which a text has the hidden texts put back.
fn restore_value(u: &mut Option<StreamingUnredactor>, v: &Json, end: bool) -> (r: Json)
    ensures
        (r@, unredacting(*final(u))) == with_text_restored(unredacting(*old(u)), v@, end),
{
    match v {
        Json::Str(s) => Json::Str(unredact_text(u, s.as_str(), end)),
        _ => v.copy(),
    }
}

/// A message, or a piece of one, with its known fields.
fn sanitize_message(
    fields: &Vec<(String, Json)>,
    u: &mut Option<StreamingUnredactor>,
    end: bool,
) -> (r: Vec<(String, Json)>)
    ensures
        (fields_of(r@), unredacting(*final(u))) == clean_message(
            fields_of(fields@),
            unredacting(*old(u)),
            end,
        ),
{
    let ghost all = fields_of(fields@);
    let mut out: Vec<(String, Json)> = Vec::new();
    proof {
        assert(fields_of(out@) =~= Seq::<(Seq<char>, JsonValue)>::empty());
    }
    let reasoning = match find_key(fields, "reasoning") {
        Some(i) => Some(i),
        None => find_key(fields, "reasoning_content"),
    };
    if let Some(i) = reasoning {
        let value = restore_value(u, &fields[i].1, end);
        let ghost shown = value@;
        push_field(&mut out, "reasoning_content", value);
        proof {
            assert(fields_of(out@) =~= seq![("reasoning_content"@, shown)]);
        }
    }
    let ghost first = fields_of(out@);
    pick(&mut out, fields, "role");
    proof {
        assert(seq!["role"@].drop_last() =~= Seq::<Seq<char>>::empty());
        reveal_with_fuel(picked, 2);
        assert(fields_of(out@) =~= first + picked(all, seq!["role"@]));
    }
    if let Some(i) = find_key(fields, "content") {
        let value = restore_value(u, &fields[i].1, end);
        push_field(&mut out, "content", value);
    }
    pick_three(&mut out, fields, "tool_calls", "function_call", "refusal");
    out
}

/// A choice with its known fields.
fn sanitize_choice(fields: &Vec<(String, Json)>, u: &mut Option<StreamingUnredactor>) -> (r: Vec<
    (String, Json),
>)
    ensures
        (fields_of(r@), unredacting(*final(u))) == clean_choice(
            fields_of(fields@),
            unredacting(*old(u)),
        ),
{
    let mut out: Vec<(String, Json)> = Vec::new();
    proof {
        assert(fields_of(out@) =~= Seq::<(Seq<char>, JsonValue)>::empty());
    }
    pick_three(&mut out, fields, "index", "finish_reason", "logprobs");
    proof {
        assert(fields_of(out@) =~= picked(fields_of(fields@), choice_names()));
    }
    if let Some(i) = find_key(fields, "message") {
        if let Json::Obj(m) = &fields[i].1 {
            let clean = sanitize_message(m, u, true);
            proof {
                lemma_object_view(*m);
                lemma_object_view(clean);
            }
            push_field(&mut out, "message", Json::Obj(clean));
        }
    }
    if let Some(i) = find_key(fields, "delta") {
        if let Json::Obj(d) = &fields[i].1 {
            let clean = sanitize_message(d, u, false);
            proof {
                lemma_object_view(*d);
                lemma_object_view(clean);
            }
            push_field(&mut out, "delta", Json::Obj(clean));
        }
    }
    out
}

/// The choices with their known fields.
fn sanitize_choices(choices: &Vec<Json>, u: &mut Option<StreamingUnredactor>) -> (r: Vec<Json>)
    ensures
        (values_of(r@), unredacting(*final(u))) == clean_choices(
            values_of(choices@),
            unredacting(*old(u)),
        ),
{
    let ghost all = values_of(choices@);
    let ghost st = unredacting(*u);
    let mut out: Vec<Json> = Vec::new();
    let mut i: usize = 0;
    proof {
        assert(all.take(0).len() == 0);
        assert(values_of(out@) =~= Seq::<JsonValue>::empty());
    }
    while i < choices.len()
        invariant
            i <= choices@.len(),
            all == values_of(choices@),
            (values_of(out@), unredacting(*u)) == clean_choices(all.take(i as int), st),
        decreases choices@.len() - i,
    {
        proof {
            assert(all.take(i + 1).drop_last() =~= all.take(i as int));
            assert(all.take(i + 1).last() == choices@[i as int]@);
        }
        if let Json::Obj(fields) = &choices[i] {
            let clean = sanitize_choice(fields, u);
            proof {
                lemma_object_view(*fields);
                lemma_object_view(clean);
            }
            let ghost before = out@;
            let item = Json::Obj(clean);
            let ghost shown = item@;
            out.push(item);
            proof {
                assert(values_of(out@) =~= values_of(before).push(shown));
            }
        }
        i = i + 1;
    }
    proof {
        assert(all.take(all.len() as int) =~= all);
    }
    out
}

/// Makes a provider's answer fit for the client. `cost` is what the usage is said to cost.
pub fn sanitize_and_spoof_response(
    original: &Json,
    chat_id: &str,
    requested_model: &str,
    provider_id: &str,
    cost: &Json,
    unredactor: &mut Option<StreamingUnredactor>,
) -> (r: Json)
    ensures
        (r@, unredacting(*final(unredactor))) == clean_answer(
            original@,
            chat_id@,
            requested_model@,
            provider_id@,
            cost@,
            unredacting(*old(unredactor)),
        ),
{
    let mut out: Vec<(String, Json)> = Vec::new();
    proof {
        assert(fields_of(out@) =~= Seq::<(Seq<char>, JsonValue)>::empty());
        lemma_object_view(out);
    }
    let fields = match original {
        Json::Obj(f) => f,
        _ => {
            return Json::Obj(out);
        },
    };
    proof {
        lemma_object_view(*fields);
    }
    pick_three(&mut out, fields, "object", "created", "system_fingerprint");
    proof {
        assert(fields_of(out@) =~= picked(fields_of(fields@), root_names()));
    }
    push_field(&mut out, "id", Json::Str(chat_id.to_string()));
    push_field(&mut out, "model", Json::Str(requested_model.to_string()));
    push_field(&mut out, "provider", Json::Str(provider_id.to_string()));
    if let Some(i) = find_key(fields, "choices") {
        if let Json::Arr(choices) = &fields[i].1 {
            let clean = sanitize_choices(choices, unredactor);
            proof {
                lemma_array_view(*choices);
                lemma_array_view(clean);
            }
            push_field(&mut out, "choices", Json::Arr(clean));
        }
    }
    if let Some(i) = find_key(fields, "usage") {
        if let Json::Obj(usage) = &fields[i].1 {
            let mut counts: Vec<(String, Json)> = Vec::new();
            proof {
                lemma_object_view(*usage);
                assert(fields_of(counts@) =~= Seq::<(Seq<char>, JsonValue)>::empty());
            }
            pick_three(&mut counts, usage, "prompt_tokens", "completion_tokens", "total_tokens");
            proof {
                assert(fields_of(counts@) =~= picked(fields_of(usage@), usage_names()));
            }
            push_field(&mut counts, "cost", cost.copy());
            proof {
                lemma_object_view(counts);
            }
            push_field(&mut out, "usage", Json::Obj(counts));
        }
    }
    proof {
        lemma_object_view(out);
    }
    Json::Obj(out)
}

/// The counts of tokens that an answer states.
pub fn usage_tokens(original: &Json) -> (r: Option<(Option<Json>, Option<Json>)>)
    ensures
        match r {
            Some(t) => stated_tokens(original@) == Some(
                (
                    (match t.0 {
                        Some(p) => Some(p@),
                        None => None,
                    }),
                    (match t.1 {
                        Some(c) => Some(c@),
                        None => None,
                    }),
                ),
            ),
            None => stated_tokens(original@) is None,
        },
{
    match original.get("usage") {
        Some(Json::Obj(usage)) => {
            proof {
                lemma_object_view(*usage);
            }
            let prompt = match find_key(usage, "prompt_tokens") {
                Some(i) => Some(usage[i].1.copy()),
                None => None,
            };
            let completion = match find_key(usage, "completion_tokens") {
                Some(i) => Some(usage[i].1.copy()),
                None => None,
            };
            Some((prompt, completion))
        },
        _ => None,
    }
}

// ---------------------------------------------------------------------------
// Encrypting what is passed on
// ---------------------------------------------------------------------------

/// Where a ratchet stands.
#[verifier::ext_equal]
pub struct RatchetAt {
    pub key: Seq<u8>,
    pub count: nat,
    pub aad: Seq<u8>,
}

/// Where a ratchet stands.
pub open spec fn ratchet_at(r: StreamRatchet) -> RatchetAt {
    RatchetAt { key: r.key(), count: r.count(), aad: r.aad() }
}

/// Where a ratchet stands after one more text.
pub open spec fn moved_on(r: RatchetAt) -> RatchetAt {
    RatchetAt { key: next_key(r.key, r.count + 1), count: r.count + 1, aad: r.aad }
}

/// Whether a field of a message is encrypted: the reasoning and the content are, where they
/// are texts.
pub open spec fn is_secret(f: (Seq<char>, JsonValue)) -> bool {
    (f.0 == "reasoning_content"@ || f.0 == "content"@) && f.1 is Str
}

/// Whether a text can be encrypted where a ratchet stands: the cipher takes it, and the
/// ratchet is not used up.
pub open spec fn can_encrypt(s: Seq<char>, r: RatchetAt) -> bool {
    &&& encode_utf8(s).len() <= gcm_max_plaintext()
    &&& encode_utf8(s).len() + 28 <= usize::MAX / 4
    &&& r.count < u64::MAX
}

/// Where a ratchet stands after the secret fields among some.
pub open spec fn after_fields(fields: Seq<(Seq<char>, JsonValue)>, r: RatchetAt) -> RatchetAt
    decreases fields.len(),
{
    if fields.len() == 0 {
        r
    } else {
        let before = after_fields(fields.drop_last(), r);
        if is_secret(fields.last()) {
            moved_on(before)
        } else {
            before
        }
    }
}

/// Whether the fields of a message have been encrypted by a ratchet: a client with the key
/// of each secret field's place reads the text, and every other field is the same.
pub open spec fn message_encrypted(
    plain: Seq<(Seq<char>, JsonValue)>,
    shown: Seq<(Seq<char>, JsonValue)>,
    r: RatchetAt,
) -> bool {
    &&& shown.len() == plain.len()
    &&& forall|i: int|
        0 <= i < plain.len() ==> {
            let at = after_fields(plain.take(i), r);
            if is_secret(#[trigger] plain[i]) {
                &&& shown[i].0 == plain[i].0
                &&& shown[i].1 is Str
                &&& can_encrypt(plain[i].1->Str_0, at)
                &&& chunk_opened(at.key, at.aad, shown[i].1->Str_0) == Some(
                    encode_utf8(plain[i].1->Str_0),
                )
            } else {
                shown[i] == plain[i]
            }
        }
}

/// Whether a field of a choice holds a message, or a piece of one.
pub open spec fn is_message(f: (Seq<char>, JsonValue)) -> bool {
    (f.0 == "message"@ || f.0 == "delta"@) && f.1 is Obj
}

/// Where a ratchet stands after the fields of a choice.
pub open spec fn after_choice(fields: Seq<(Seq<char>, JsonValue)>, r: RatchetAt) -> RatchetAt
    decreases fields.len(),
{
    if fields.len() == 0 {
        r
    } else {
        let before = after_choice(fields.drop_last(), r);
        if is_message(fields.last()) {
            after_fields(fields.last().1->Obj_0, before)
        } else {
            before
        }
    }
}

/// Whether the messages in a choice have been encrypted by a ratchet.
pub open spec fn choice_encrypted(
    plain: Seq<(Seq<char>, JsonValue)>,
    shown: Seq<(Seq<char>, JsonValue)>,
    r: RatchetAt,
) -> bool {
    &&& shown.len() == plain.len()
    &&& forall|i: int|
        0 <= i < plain.len() ==> {
            if is_message(#[trigger] plain[i]) {
                &&& shown[i].0 == plain[i].0
                &&& shown[i].1 is Obj
                &&& message_encrypted(
                    plain[i].1->Obj_0,
                    shown[i].1->Obj_0,
                    after_choice(plain.take(i), r),
                )
            } else {
                shown[i] == plain[i]
            }
        }
}

/// Where a ratchet stands after some choices.
pub open spec fn after_choices(choices: Seq<JsonValue>, r: RatchetAt) -> RatchetAt
    decreases choices.len(),
{
    if choices.len() == 0 {
        r
    } else {
        let before = after_choices(choices.drop_last(), r);
        match choices.last() {
            JsonValue::Obj(fields) => after_choice(fields, before),
            _ => before,
        }
    }
}

/// Whether choices have been encrypted by a ratchet, one after the other.
pub open spec fn choices_encrypted(
    plain: Seq<JsonValue>,
    shown: Seq<JsonValue>,
    r: RatchetAt,
) -> bool {
    &&& shown.len() == plain.len()
    &&& forall|i: int|
        0 <= i < plain.len() ==> (match #[trigger] plain[i] {
            JsonValue::Obj(fields) => {
                &&& shown[i] is Obj
                &&& choice_encrypted(fields, shown[i]->Obj_0, after_choices(plain.take(i), r))
            },
            _ => shown[i] == plain[i],
        })
}

/// The nonce that was drawn for a text, counted from zero, if one was.
pub open spec fn drawn_at(drawn: Seq<Option<[u8; 12]>>, k: int) -> Option<[u8; 12]> {
    if 0 <= k < drawn.len() {
        drawn[k]
    } else {
        None
    }
}

/// Whether a text is encrypted where a ratchet stands that stood at `from` when the first
/// nonce was taken: its nonce was drawn, the cipher takes it, and the ratchet is not used up.
pub open spec fn text_fits(
    s: Seq<char>,
    r: RatchetAt,
    drawn: Seq<Option<[u8; 12]>>,
    from: nat,
) -> bool {
    drawn_at(drawn, r.count - from) is Some && can_encrypt(s, r)
}

/// What a text is encrypted to where a ratchet stands.
pub open spec fn sealed_text(
    s: Seq<char>,
    r: RatchetAt,
    drawn: Seq<Option<[u8; 12]>>,
    from: nat,
) -> JsonValue {
    JsonValue::Str(chunk_text(r.key, drawn_at(drawn, r.count - from)->0@, r.aad, encode_utf8(s)))
}

/// What comes out where something goes before the rest, if the rest comes out.
pub open spec fn behind<A>(head: Seq<A>, rest: (Option<Seq<A>>, RatchetAt)) -> (
    Option<Seq<A>>,
    RatchetAt,
) {
    (
        match rest.0 {
            Some(v) => Some(head + v),
            None => None,
        },
        rest.1,
    )
}

/// What becomes of the fields of a message from `i` on, and where the ratchet stands then: it
/// stops at the first text that cannot be encrypted.
pub open spec fn fields_outcome(
    fields: Seq<(Seq<char>, JsonValue)>,
    i: int,
    r: RatchetAt,
    drawn: Seq<Option<[u8; 12]>>,
    from: nat,
) -> (Option<Seq<(Seq<char>, JsonValue)>>, RatchetAt)
    decreases fields.len() - i,
{
    if i < 0 || i >= fields.len() {
        (Some(seq![]), r)
    } else if !is_secret(fields[i]) {
        behind(seq![fields[i]], fields_outcome(fields, i + 1, r, drawn, from))
    } else if text_fits(fields[i].1->Str_0, r, drawn, from) {
        behind(
            seq![(fields[i].0, sealed_text(fields[i].1->Str_0, r, drawn, from))],
            fields_outcome(fields, i + 1, moved_on(r), drawn, from),
        )
    } else {
        (None, r)
    }
}

/// What becomes of the fields of a choice from `i` on, and where the ratchet stands then.
pub open spec fn choice_outcome(
    fields: Seq<(Seq<char>, JsonValue)>,
    i: int,
    r: RatchetAt,
    drawn: Seq<Option<[u8; 12]>>,
    from: nat,
) -> (Option<Seq<(Seq<char>, JsonValue)>>, RatchetAt)
    decreases fields.len() - i,
{
    if i < 0 || i >= fields.len() {
        (Some(seq![]), r)
    } else if !is_message(fields[i]) {
        behind(seq![fields[i]], choice_outcome(fields, i + 1, r, drawn, from))
    } else {
        let m = fields_outcome(fields[i].1->Obj_0, 0, r, drawn, from);
        match m.0 {
            Some(v) => behind(
                seq![(fields[i].0, JsonValue::Obj(v))],
                choice_outcome(fields, i + 1, m.1, drawn, from),
            ),
            None => (None, m.1),
        }
    }
}

/// What becomes of some choices from `i` on, and where the ratchet stands then.
pub open spec fn choices_outcome(
    choices: Seq<JsonValue>,
    i: int,
    r: RatchetAt,
    drawn: Seq<Option<[u8; 12]>>,
    from: nat,
) -> (Option<Seq<JsonValue>>, RatchetAt)
    decreases choices.len() - i,
{
    if i < 0 || i >= choices.len() {
        (Some(seq![]), r)
    } else {
        match choices[i] {
            JsonValue::Obj(fields) => {
                let c = choice_outcome(fields, 0, r, drawn, from);
                match c.0 {
                    Some(v) => behind(
                        seq![JsonValue::Obj(v)],
                        choices_outcome(choices, i + 1, c.1, drawn, from),
                    ),
                    None => (None, c.1),
                }
            },
            _ => behind(seq![choices[i]], choices_outcome(choices, i + 1, r, drawn, from)),
        }
    }
}

/// What becomes of an answer whose texts are encrypted with some nonces, one after the other,
/// and where the ratchet stands then. An answer without choices stays as it is.
pub open spec fn answer_outcome(
    answer: JsonValue,
    r: RatchetAt,
    drawn: Seq<Option<[u8; 12]>>,
) -> (Option<JsonValue>, RatchetAt) {
    match answer.get("choices"@) {
        Some(JsonValue::Arr(choices)) => {
            let c = choices_outcome(choices, 0, r, drawn, r.count);
            (
                match c.0 {
                    Some(v) => Some(
                        JsonValue::Obj(
                            with_field(answer->Obj_0, "choices"@, JsonValue::Arr(v)),
                        ),
                    ),
                    None => None,
                },
                c.1,
            )
        },
        _ => (Some(answer), r),
    }
}

/// The secret texts in the fields of a message from `i` on, in their order.
pub open spec fn texts_in_fields(fields: Seq<(Seq<char>, JsonValue)>, i: int) -> Seq<Seq<char>>
    decreases fields.len() - i,
{
    if i < 0 || i >= fields.len() {
        seq![]
    } else {
        let rest = texts_in_fields(fields, i + 1);
        if is_secret(fields[i]) {
            seq![fields[i].1->Str_0] + rest
        } else {
            rest
        }
    }
}

/// The secret texts in the fields of a choice from `i` on, in their order.
pub open spec fn texts_in_choice(fields: Seq<(Seq<char>, JsonValue)>, i: int) -> Seq<Seq<char>>
    decreases fields.len() - i,
{
    if i < 0 || i >= fields.len() {
        seq![]
    } else {
        let rest = texts_in_choice(fields, i + 1);
        if is_message(fields[i]) {
            texts_in_fields(fields[i].1->Obj_0, 0) + rest
        } else {
            rest
        }
    }
}

/// The secret texts in some choices from `i` on, in their order.
pub open spec fn texts_in_choices(choices: Seq<JsonValue>, i: int) -> Seq<Seq<char>>
    decreases choices.len() - i,
{
    if i < 0 || i >= choices.len() {
        seq![]
    } else {
        let rest = texts_in_choices(choices, i + 1);
        match choices[i] {
            JsonValue::Obj(fields) => texts_in_choice(fields, 0) + rest,
            _ => rest,
        }
    }
}

/// The secret texts in an answer, in their order.
pub open spec fn texts_in_answer(answer: JsonValue) -> Seq<Seq<char>> {
    match answer.get("choices"@) {
        Some(JsonValue::Arr(choices)) => texts_in_choices(choices, 0),
        _ => seq![],
    }
}

/// Where a ratchet stands after `k` more texts.
pub open spec fn advanced(r: RatchetAt, k: nat) -> RatchetAt
    decreases k,
{
    if k == 0 {
        r
    } else {
        moved_on(advanced(r, (k - 1) as nat))
    }
}

/// Whether some texts are all encrypted, one after the other.
pub open spec fn texts_fit(
    texts: Seq<Seq<char>>,
    r: RatchetAt,
    drawn: Seq<Option<[u8; 12]>>,
    from: nat,
) -> bool {
    forall|k: int|
        0 <= k < texts.len() ==> text_fits(#[trigger] texts[k], advanced(r, k as nat), drawn, from)
}

proof fn lemma_advanced(r: RatchetAt, a: nat, b: nat)
    ensures
        advanced(advanced(r, a), b) == advanced(r, a + b),
        advanced(r, a).count == r.count + a,
    decreases a + b,
{
    if b > 0 {
        lemma_advanced(r, a, (b - 1) as nat);
    } else if a > 0 {
        lemma_advanced(r, (a - 1) as nat, 0);
    }
}

proof fn lemma_texts_fit(
    a: Seq<Seq<char>>,
    b: Seq<Seq<char>>,
    r: RatchetAt,
    drawn: Seq<Option<[u8; 12]>>,
    from: nat,
)
    ensures
        texts_fit(a + b, r, drawn, from) <==> texts_fit(a, r, drawn, from) && texts_fit(
            b,
            advanced(r, a.len()),
            drawn,
            from,
        ),
{
    let t = a + b;
    let s = advanced(r, a.len());
    if texts_fit(t, r, drawn, from) {
        assert forall|k: int| 0 <= k < a.len() implies text_fits(
            #[trigger] a[k],
            advanced(r, k as nat),
            drawn,
            from,
        ) by {
            assert(t[k] == a[k]);
        }
        assert forall|k: int| 0 <= k < b.len() implies text_fits(
            #[trigger] b[k],
            advanced(s, k as nat),
            drawn,
            from,
        ) by {
            assert(t[a.len() + k] == b[k]);
            lemma_advanced(r, a.len(), k as nat);
        }
    }
    if texts_fit(a, r, drawn, from) && texts_fit(b, s, drawn, from) {
        assert forall|k: int| 0 <= k < t.len() implies text_fits(
            #[trigger] t[k],
            advanced(r, k as nat),
            drawn,
            from,
        ) by {
            if k < a.len() {
                assert(t[k] == a[k]);
            } else {
                assert(t[k] == b[k - a.len()]);
                lemma_advanced(r, a.len(), (k - a.len()) as nat);
            }
        }
    }
}

proof fn lemma_fields_fit(
    fields: Seq<(Seq<char>, JsonValue)>,
    i: int,
    r: RatchetAt,
    drawn: Seq<Option<[u8; 12]>>,
    from: nat,
)
    requires
        0 <= i,
    ensures
        fields_outcome(fields, i, r, drawn, from).0 is Some <==> texts_fit(
            texts_in_fields(fields, i),
            r,
            drawn,
            from,
        ),
        fields_outcome(fields, i, r, drawn, from).0 is Some ==> fields_outcome(
            fields,
            i,
            r,
            drawn,
            from,
        ).1 == advanced(r, texts_in_fields(fields, i).len()),
    decreases fields.len() - i,
{
    if i < fields.len() {
        let rest = texts_in_fields(fields, i + 1);
        if is_secret(fields[i]) {
            let one = seq![fields[i].1->Str_0];
            lemma_fields_fit(fields, i + 1, moved_on(r), drawn, from);
            lemma_texts_fit(one, rest, r, drawn, from);
            assert(advanced(r, 1) == moved_on(r)) by {
                reveal_with_fuel(advanced, 2);
            }
            assert(texts_fit(one, r, drawn, from) <==> text_fits(one[0], r, drawn, from)) by {
                assert(advanced(r, 0) == r);
            }
            lemma_advanced(r, 1, rest.len());
            assert((one + rest).len() == 1 + rest.len());
        } else {
            lemma_fields_fit(fields, i + 1, r, drawn, from);
        }
    }
}

proof fn lemma_choice_fits(
    fields: Seq<(Seq<char>, JsonValue)>,
    i: int,
    r: RatchetAt,
    drawn: Seq<Option<[u8; 12]>>,
    from: nat,
)
    requires
        0 <= i,
    ensures
        choice_outcome(fields, i, r, drawn, from).0 is Some <==> texts_fit(
            texts_in_choice(fields, i),
            r,
            drawn,
            from,
        ),
        choice_outcome(fields, i, r, drawn, from).0 is Some ==> choice_outcome(
            fields,
            i,
            r,
            drawn,
            from,
        ).1 == advanced(r, texts_in_choice(fields, i).len()),
    decreases fields.len() - i,
{
    if i < fields.len() {
        let rest = texts_in_choice(fields, i + 1);
        if is_message(fields[i]) {
            let own = texts_in_fields(fields[i].1->Obj_0, 0);
            lemma_fields_fit(fields[i].1->Obj_0, 0, r, drawn, from);
            lemma_choice_fits(fields, i + 1, advanced(r, own.len()), drawn, from);
            lemma_texts_fit(own, rest, r, drawn, from);
            lemma_advanced(r, own.len(), rest.len());
            assert((own + rest).len() == own.len() + rest.len());
        } else {
            lemma_choice_fits(fields, i + 1, r, drawn, from);
        }
    }
}

proof fn lemma_choices_fit(
    choices: Seq<JsonValue>,
    i: int,
    r: RatchetAt,
    drawn: Seq<Option<[u8; 12]>>,
    from: nat,
)
    requires
        0 <= i,
    ensures
        choices_outcome(choices, i, r, drawn, from).0 is Some <==> texts_fit(
            texts_in_choices(choices, i),
            r,
            drawn,
            from,
        ),
        choices_outcome(choices, i, r, drawn, from).0 is Some ==> choices_outcome(
            choices,
            i,
            r,
            drawn,
            from,
        ).1 == advanced(r, texts_in_choices(choices, i).len()),
    decreases choices.len() - i,
{
    if i < choices.len() {
        let rest = texts_in_choices(choices, i + 1);
        match choices[i] {
            JsonValue::Obj(fields) => {
                let own = texts_in_choice(fields, 0);
                lemma_choice_fits(fields, 0, r, drawn, from);
                lemma_choices_fit(choices, i + 1, advanced(r, own.len()), drawn, from);
                lemma_texts_fit(own, rest, r, drawn, from);
                lemma_advanced(r, own.len(), rest.len());
                assert((own + rest).len() == own.len() + rest.len());
            },
            _ => {
                lemma_choices_fit(choices, i + 1, r, drawn, from);
            },
        }
    }
}

/// An answer comes out encrypted exactly where each of its texts, in their order, has a nonce
/// and fits where the ratchet then stands; and the ratchet has then moved on once for each.
pub proof fn law_fitting_answers_come_out(
    answer: JsonValue,
    r: RatchetAt,
    drawn: Seq<Option<[u8; 12]>>,
)
    ensures
        answer_outcome(answer, r, drawn).0 is Some <==> texts_fit(
            texts_in_answer(answer),
            r,
            drawn,
            r.count,
        ),
        answer_outcome(answer, r, drawn).0 is Some ==> answer_outcome(answer, r, drawn).1
            == advanced(r, texts_in_answer(answer).len()),
{
    match answer.get("choices"@) {
        Some(JsonValue::Arr(choices)) => {
            lemma_choices_fit(choices, 0, r, drawn, r.count);
        },
        _ => {},
    }
}

/// Encrypts one text with a nonce that was drawn; `None` where none could be drawn, the text
/// is longer than the cipher takes, or the ratchet is used up.
pub fn encrypt_text_with(s: &str, ratchet: &mut StreamRatchet, drawn: Option<[u8; 12]>) -> (r:
    Option<String>)
    requires
        old(ratchet).wf(),
    ensures
        final(ratchet).wf(),
        final(ratchet).aad() == old(ratchet).aad(),
        r is Some <==> drawn is Some && can_encrypt(s@, ratchet_at(*old(ratchet))),
        match r {
            Some(chunk) => {
                &&& chunk@ == chunk_text(
                    old(ratchet).key(),
                    drawn->0@,
                    old(ratchet).aad(),
                    encode_utf8(s@),
                )
                &&& chunk_opened(old(ratchet).key(), old(ratchet).aad(), chunk@) == Some(
                    encode_utf8(s@),
                )
                &&& ratchet_at(*final(ratchet)) == moved_on(ratchet_at(*old(ratchet)))
            },
            None => *final(ratchet) == *old(ratchet),
        },
{
    let bytes = s.as_bytes();
    if bytes.len() as u64 > 68719476704 || bytes.len() > usize::MAX / 4 - 28 || ratchet.chunks()
        == u64::MAX {
        return None;
    }
    match drawn {
        Some(nonce) => Some(ratchet.encrypt_chunk_with(bytes, &nonce)),
        None => None,
    }
}

/// Encrypts one text; `None` where no randomness can be had, the text is longer than the
/// cipher takes, or the ratchet is used up.
pub fn encrypt_text(s: &str, ratchet: &mut StreamRatchet) -> (r: Option<String>)
    requires
        old(ratchet).wf(),
    ensures
        final(ratchet).wf(),
        final(ratchet).aad() == old(ratchet).aad(),
        match r {
            Some(chunk) => {
                &&& can_encrypt(s@, ratchet_at(*old(ratchet)))
                &&& exists|nonce: Seq<u8>|
                    nonce.len() == 12 && chunk@ == #[trigger] chunk_text(
                        old(ratchet).key(),
                        nonce,
                        old(ratchet).aad(),
                        encode_utf8(s@),
                    )
                &&& chunk_opened(old(ratchet).key(), old(ratchet).aad(), chunk@) == Some(
                    encode_utf8(s@),
                )
                &&& ratchet_at(*final(ratchet)) == moved_on(ratchet_at(*old(ratchet)))
            },
            None => *final(ratchet) == *old(ratchet),
        },
{
    let drawn = gen_random_bytes::<12>();
    proof {
        assert(drawn matches Some(nonce) ==> nonce@.len() == 12);
    }
    encrypt_text_with(s, ratchet, drawn)
}

proof fn lemma_behind_nothing<A>(w: (Option<Seq<A>>, RatchetAt))
    ensures
        behind(seq![], w) == w,
{
    match w.0 {
        Some(v) => {
            assert(Seq::<A>::empty() + v =~= v);
        },
        None => {},
    }
}

proof fn lemma_behind_twice<A>(a: Seq<A>, b: Seq<A>, w: (Option<Seq<A>>, RatchetAt))
    ensures
        behind(a, behind(b, w)) == behind(a + b, w),
{
    match w.0 {
        Some(v) => {
            assert(a + (b + v) =~= (a + b) + v);
        },
        None => {},
    }
}

/// The nonce that was drawn for the next text of a ratchet that stood at `from` when the first
/// was taken.
fn nonce_for(drawn: &Vec<Option<[u8; 12]>>, ratchet: &StreamRatchet, from: u64) -> (r: Option<
    [u8; 12],
>)
    requires
        from <= ratchet.count(),
    ensures
        r == drawn_at(drawn@, ratchet.count() - from),
{
    let k: u64 = ratchet.chunks() - from;
    if k < drawn.len() as u64 {
        drawn[k as usize]
    } else {
        None
    }
}

/// Encrypts the secret fields of a message.
fn encrypt_message(
    fields: &Vec<(String, Json)>,
    ratchet: &mut StreamRatchet,
    drawn: &Vec<Option<[u8; 12]>>,
    from: u64,
) -> (r: Option<Vec<(String, Json)>>)
    requires
        old(ratchet).wf(),
        from <= old(ratchet).count(),
    ensures
        final(ratchet).wf(),
        final(ratchet).aad() == old(ratchet).aad(),
        from <= final(ratchet).count(),
        fields_outcome(fields_of(fields@), 0, ratchet_at(*old(ratchet)), drawn@, from as nat) == (
            match r {
                Some(v) => Some(fields_of(v@)),
                None => None,
            },
            ratchet_at(*final(ratchet)),
        ),
        r matches Some(v) ==> {
            &&& message_encrypted(fields_of(fields@), fields_of(v@), ratchet_at(*old(ratchet)))
            &&& ratchet_at(*final(ratchet)) == after_fields(
                fields_of(fields@),
                ratchet_at(*old(ratchet)),
            )
        },
{
    let ghost plain = fields_of(fields@);
    let ghost start = ratchet_at(*ratchet);
    let mut out: Vec<(String, Json)> = Vec::new();
    let mut i: usize = 0;
    proof {
        assert(plain.take(0).len() == 0);
        assert(fields_of(out@) =~= plain.take(0));
        lemma_behind_nothing(fields_outcome(plain, 0, start, drawn@, from as nat));
        assert(fields_of(out@) =~= seq![]);
    }
    while i < fields.len()
        invariant
            i <= fields@.len(),
            plain == fields_of(fields@),
            start == ratchet_at(*old(ratchet)),
            ratchet.wf(),
            ratchet.aad() == old(ratchet).aad(),
            from <= ratchet.count(),
            fields_outcome(plain, 0, start, drawn@, from as nat) == behind(
                fields_of(out@),
                fields_outcome(plain, i as int, ratchet_at(*ratchet), drawn@, from as nat),
            ),
            ratchet_at(*ratchet) == after_fields(plain.take(i as int), start),
            message_encrypted(plain.take(i as int), fields_of(out@), start),
        decreases fields@.len() - i,
    {
        let ghost before = fields_of(out@);
        let ghost at = ratchet_at(*ratchet);
        let key = fields[i].0.as_str();
        let named = text::text_eq(key, "reasoning_content") || text::text_eq(key, "content");
        let value = match &fields[i].1 {
            Json::Str(s) => if named {
                match encrypt_text_with(s.as_str(), ratchet, nonce_for(drawn, ratchet, from)) {
                    Some(chunk) => Json::Str(chunk),
                    None => {
                        proof {
                            assert(is_secret(plain[i as int]));
                            assert(plain[i as int].1->Str_0 == s@);
                        }
                        return None;
                    },
                }
            } else {
                fields[i].1.copy()
            },
            _ => fields[i].1.copy(),
        };
        let ghost shown = value@;
        push_field(&mut out, key, value);
        proof {
            lemma_behind_twice(
                before,
                seq![fields_of(out@)[i as int]],
                fields_outcome(plain, i + 1, ratchet_at(*ratchet), drawn@, from as nat),
            );
            assert(fields_of(out@) =~= before + seq![fields_of(out@)[i as int]]);
            let more = plain.take(i + 1);
            assert(more.drop_last() =~= plain.take(i as int));
            assert(more.last() == plain[i as int]);
            assert forall|j: int| 0 <= j <= i implies #[trigger] more.take(j) == plain.take(j) by {
                assert(more.take(j) =~= plain.take(j));
            }
            assert forall|j: int| 0 <= j < i implies #[trigger] plain.take(i as int).take(j)
                == plain.take(j) by {
                assert(plain.take(i as int).take(j) =~= plain.take(j));
            }
            assert(message_encrypted(more, fields_of(out@), start)) by {
                assert forall|j: int| 0 <= j < more.len() implies ({
                    let at = after_fields(more.take(j), start);
                    if is_secret(#[trigger] more[j]) {
                        &&& fields_of(out@)[j].0 == more[j].0
                        &&& fields_of(out@)[j].1 is Str
                        &&& can_encrypt(more[j].1->Str_0, at)
                        &&& chunk_opened(at.key, at.aad, fields_of(out@)[j].1->Str_0) == Some(
                            encode_utf8(more[j].1->Str_0),
                        )
                    } else {
                        fields_of(out@)[j] == more[j]
                    }
                }) by {
                    if j < i {
                        assert(more[j] == plain.take(i as int)[j]);
                        assert(fields_of(out@)[j] == before[j]);
                    }
                }
            }
        }
        i = i + 1;
    }
    proof {
        assert(plain.take(plain.len() as int) =~= plain);
        assert(fields_of(out@) + seq![] =~= fields_of(out@));
    }
    Some(out)
}

/// Encrypts the messages in a choice.
fn encrypt_choice(
    fields: &Vec<(String, Json)>,
    ratchet: &mut StreamRatchet,
    drawn: &Vec<Option<[u8; 12]>>,
    from: u64,
) -> (r: Option<Vec<(String, Json)>>)
    requires
        old(ratchet).wf(),
        from <= old(ratchet).count(),
    ensures
        final(ratchet).wf(),
        final(ratchet).aad() == old(ratchet).aad(),
        from <= final(ratchet).count(),
        choice_outcome(fields_of(fields@), 0, ratchet_at(*old(ratchet)), drawn@, from as nat) == (
            match r {
                Some(v) => Some(fields_of(v@)),
                None => None,
            },
            ratchet_at(*final(ratchet)),
        ),
        r matches Some(v) ==> {
            &&& choice_encrypted(fields_of(fields@), fields_of(v@), ratchet_at(*old(ratchet)))
            &&& ratchet_at(*final(ratchet)) == after_choice(
                fields_of(fields@),
                ratchet_at(*old(ratchet)),
            )
        },
{
    let ghost plain = fields_of(fields@);
    let ghost start = ratchet_at(*ratchet);
    let mut out: Vec<(String, Json)> = Vec::new();
    let mut i: usize = 0;
    proof {
        assert(plain.take(0).len() == 0);
        assert(fields_of(out@) =~= plain.take(0));
        lemma_behind_nothing(choice_outcome(plain, 0, start, drawn@, from as nat));
        assert(fields_of(out@) =~= seq![]);
    }
    while i < fields.len()
        invariant
            i <= fields@.len(),
            plain == fields_of(fields@),
            start == ratchet_at(*old(ratchet)),
            ratchet.wf(),
            ratchet.aad() == old(ratchet).aad(),
            from <= ratchet.count(),
            choice_outcome(plain, 0, start, drawn@, from as nat) == behind(
                fields_of(out@),
                choice_outcome(plain, i as int, ratchet_at(*ratchet), drawn@, from as nat),
            ),
            ratchet_at(*ratchet) == after_choice(plain.take(i as int), start),
            choice_encrypted(plain.take(i as int), fields_of(out@), start),
        decreases fields@.len() - i,
    {
        let ghost before = fields_of(out@);
        let key = fields[i].0.as_str();
        let named = text::text_eq(key, "message") || text::text_eq(key, "delta");
        let value = match &fields[i].1 {
            Json::Obj(m) => if named {
                match encrypt_message(m, ratchet, drawn, from) {
                    Some(v) => {
                        proof {
                            lemma_object_view(*m);
                            lemma_object_view(v);
                        }
                        Json::Obj(v)
                    },
                    None => {
                        proof {
                            lemma_object_view(*m);
                            assert(is_message(plain[i as int]));
                        }
                        return None;
                    },
                }
            } else {
                fields[i].1.copy()
            },
            _ => fields[i].1.copy(),
        };
        push_field(&mut out, key, value);
        proof {
            lemma_behind_twice(
                before,
                seq![fields_of(out@)[i as int]],
                choice_outcome(plain, i + 1, ratchet_at(*ratchet), drawn@, from as nat),
            );
            assert(fields_of(out@) =~= before + seq![fields_of(out@)[i as int]]);
            let more = plain.take(i + 1);
            assert(more.drop_last() =~= plain.take(i as int));
            assert(more.last() == plain[i as int]);
            assert(more.take(i as int) =~= plain.take(i as int));
            assert(choice_encrypted(more, fields_of(out@), start)) by {
                assert forall|j: int| 0 <= j < more.len() implies ({
                    if is_message(#[trigger] more[j]) {
                        &&& fields_of(out@)[j].0 == more[j].0
                        &&& fields_of(out@)[j].1 is Obj
                        &&& message_encrypted(
                            more[j].1->Obj_0,
                            fields_of(out@)[j].1->Obj_0,
                            after_choice(more.take(j), start),
                        )
                    } else {
                        fields_of(out@)[j] == more[j]
                    }
                }) by {
                    if j < i {
                        assert(more[j] == plain.take(i as int)[j]);
                        assert(more.take(j) =~= plain.take(i as int).take(j));
                        assert(fields_of(out@)[j] == before[j]);
                    }
                }
            }
        }
        i = i + 1;
    }
    proof {
        assert(plain.take(plain.len() as int) =~= plain);
        assert(fields_of(out@) + seq![] =~= fields_of(out@));
    }
    Some(out)
}

/// Encrypts the messages in some choices, one after the other.
fn encrypt_choices(
    choices: &Vec<Json>,
    ratchet: &mut StreamRatchet,
    drawn: &Vec<Option<[u8; 12]>>,
    from: u64,
) -> (r: Option<Vec<Json>>)
    requires
        old(ratchet).wf(),
        from <= old(ratchet).count(),
    ensures
        final(ratchet).wf(),
        final(ratchet).aad() == old(ratchet).aad(),
        choices_outcome(values_of(choices@), 0, ratchet_at(*old(ratchet)), drawn@, from as nat) == (
            match r {
                Some(v) => Some(values_of(v@)),
                None => None,
            },
            ratchet_at(*final(ratchet)),
        ),
        r matches Some(v) ==> {
            &&& choices_encrypted(values_of(choices@), values_of(v@), ratchet_at(*old(ratchet)))
            &&& ratchet_at(*final(ratchet)) == after_choices(
                values_of(choices@),
                ratchet_at(*old(ratchet)),
            )
        },
{
    let ghost plain = values_of(choices@);
    let ghost start = ratchet_at(*ratchet);
    let mut out: Vec<Json> = Vec::new();
    let mut i: usize = 0;
    proof {
        assert(plain.take(0).len() == 0);
        assert(values_of(out@) =~= plain.take(0));
        lemma_behind_nothing(choices_outcome(plain, 0, start, drawn@, from as nat));
        assert(values_of(out@) =~= seq![]);
    }
    while i < choices.len()
        invariant
            i <= choices@.len(),
            plain == values_of(choices@),
            start == ratchet_at(*old(ratchet)),
            ratchet.wf(),
            ratchet.aad() == old(ratchet).aad(),
            from <= ratchet.count(),
            choices_outcome(plain, 0, start, drawn@, from as nat) == behind(
                values_of(out@),
                choices_outcome(plain, i as int, ratchet_at(*ratchet), drawn@, from as nat),
            ),
            ratchet_at(*ratchet) == after_choices(plain.take(i as int), start),
            choices_encrypted(plain.take(i as int), values_of(out@), start),
        decreases choices@.len() - i,
    {
        let ghost before = out@;
        let value = match &choices[i] {
            Json::Obj(fields) => match encrypt_choice(fields, ratchet, drawn, from) {
                Some(v) => {
                    proof {
                        lemma_object_view(*fields);
                        lemma_object_view(v);
                    }
                    Json::Obj(v)
                },
                None => {
                    proof {
                        lemma_object_view(*fields);
                        assert(plain[i as int] is Obj);
                    }
                    return None;
                },
            },
            _ => choices[i].copy(),
        };
        let ghost shown = value@;
        out.push(value);
        proof {
            assert(values_of(out@) =~= values_of(before).push(shown));
            lemma_behind_twice(
                values_of(before),
                seq![shown],
                choices_outcome(plain, i + 1, ratchet_at(*ratchet), drawn@, from as nat),
            );
            assert(values_of(out@) =~= values_of(before) + seq![shown]);
            let more = plain.take(i + 1);
            assert(more.drop_last() =~= plain.take(i as int));
            assert(more.last() == plain[i as int]);
            assert(more.take(i as int) =~= plain.take(i as int));
            assert(choices_encrypted(more, values_of(out@), start)) by {
                assert forall|j: int| 0 <= j < more.len() implies (match #[trigger] more[j] {
                    JsonValue::Obj(fields) => {
                        &&& values_of(out@)[j] is Obj
                        &&& choice_encrypted(
                            fields,
                            values_of(out@)[j]->Obj_0,
                            after_choices(more.take(j), start),
                        )
                    },
                    _ => values_of(out@)[j] == more[j],
                }) by {
                    if j < i {
                        assert(more[j] == plain.take(i as int)[j]);
                        assert(more.take(j) =~= plain.take(i as int).take(j));
                        assert(values_of(out@)[j] == values_of(before)[j]);
                    }
                }
            }
        }
        i = i + 1;
    }
    proof {
        assert(plain.take(plain.len() as int) =~= plain);
        assert(values_of(out@) + seq![] =~= values_of(out@));
    }
    Some(out)
}

/// Encrypts the messages in an answer that is fit for the client with nonces that were drawn,
/// one for each text in their order; `None` where a text has no nonce or could not be
/// encrypted. An answer without choices stays as it is.
pub fn encrypt_answer_with(
    answer: &Json,
    ratchet: &mut StreamRatchet,
    drawn: &Vec<Option<[u8; 12]>>,
) -> (r: Option<Json>)
    requires
        old(ratchet).wf(),
    ensures
        final(ratchet).wf(),
        final(ratchet).aad() == old(ratchet).aad(),
        answer_outcome(answer@, ratchet_at(*old(ratchet)), drawn@) == (
            match r {
                Some(shown) => Some(shown@),
                None => None,
            },
            ratchet_at(*final(ratchet)),
        ),
        r is Some <==> texts_fit(
            texts_in_answer(answer@),
            ratchet_at(*old(ratchet)),
            drawn@,
            old(ratchet).count(),
        ),
        match answer@.get("choices"@) {
            Some(JsonValue::Arr(choices)) => r matches Some(shown) ==> {
                &&& shown@ is Obj
                &&& exists|clean: Seq<JsonValue>|
                    {
                        &&& #[trigger] choices_encrypted(choices, clean, ratchet_at(*old(ratchet)))
                        &&& shown@ == JsonValue::Obj(
                            with_field(answer@->Obj_0, "choices"@, JsonValue::Arr(clean)),
                        )
                    }
                &&& ratchet_at(*final(ratchet)) == after_choices(
                    choices,
                    ratchet_at(*old(ratchet)),
                )
            },
            _ => *final(ratchet) == *old(ratchet) && r is Some && r->0@ == answer@,
        },
{
    let from: u64 = ratchet.chunks();
    proof {
        law_fitting_answers_come_out(answer@, ratchet_at(*ratchet), drawn@);
    }
    match answer {
        Json::Obj(fields) => {
            proof {
                lemma_object_view(*fields);
            }
            match find_key(fields, "choices") {
                Some(i) => match &fields[i].1 {
                    Json::Arr(choices) => {
                        proof {
                            lemma_array_view(*choices);
                        }
                        match encrypt_choices(choices, ratchet, drawn, from) {
                            Some(clean) => {
                                let ghost shown = values_of(clean@);
                                proof {
                                    lemma_array_view(clean);
                                }
                                let mut out = copy_fields(fields);
                                set_field(&mut out, "choices", Json::Arr(clean));
                                proof {
                                    lemma_object_view(out);
                                    assert(choices_encrypted(
                                        values_of(choices@),
                                        shown,
                                        ratchet_at(*old(ratchet)),
                                    ));
                                }
                                Some(Json::Obj(out))
                            },
                            None => None,
                        }
                    },
                    _ => Some(answer.copy()),
                },
                None => Some(answer.copy()),
            }
        },
        _ => Some(answer.copy()),
    }
}

/// Draws a nonce for each secret text in the fields of a message.
fn draw_for_message(fields: &Vec<(String, Json)>, drawn: &mut Vec<Option<[u8; 12]>>)
    ensures
        final(drawn)@.len() == old(drawn)@.len() + texts_in_fields(fields_of(fields@), 0).len(),
{
    let ghost plain = fields_of(fields@);
    let mut i: usize = 0;
    while i < fields.len()
        invariant
            i <= fields@.len(),
            plain == fields_of(fields@),
            old(drawn)@.len() + texts_in_fields(plain, 0).len() == drawn@.len() + texts_in_fields(
                plain,
                i as int,
            ).len(),
        decreases fields@.len() - i,
    {
        let key = fields[i].0.as_str();
        if text::text_eq(key, "reasoning_content") || text::text_eq(key, "content") {
            if let Json::Str(_) = &fields[i].1 {
                drawn.push(gen_random_bytes::<12>());
            }
        }
        i = i + 1;
    }
}

/// Draws a nonce for each secret text in a choice.
fn draw_for_choice(fields: &Vec<(String, Json)>, drawn: &mut Vec<Option<[u8; 12]>>)
    ensures
        final(drawn)@.len() == old(drawn)@.len() + texts_in_choice(fields_of(fields@), 0).len(),
{
    let ghost plain = fields_of(fields@);
    let mut i: usize = 0;
    while i < fields.len()
        invariant
            i <= fields@.len(),
            plain == fields_of(fields@),
            old(drawn)@.len() + texts_in_choice(plain, 0).len() == drawn@.len() + texts_in_choice(
                plain,
                i as int,
            ).len(),
        decreases fields@.len() - i,
    {
        let key = fields[i].0.as_str();
        if text::text_eq(key, "message") || text::text_eq(key, "delta") {
            if let Json::Obj(m) = &fields[i].1 {
                proof {
                    lemma_object_view(*m);
                }
                draw_for_message(m, drawn);
            }
        }
        i = i + 1;
    }
}

/// Draws a nonce for each secret text in an answer. A nonce that could not be had is `None`.
fn draw_for_answer(answer: &Json) -> (r: Vec<Option<[u8; 12]>>)
    ensures
        r@.len() == texts_in_answer(answer@).len(),
{
    let mut drawn: Vec<Option<[u8; 12]>> = Vec::new();
    if let Some(Json::Arr(choices)) = answer.get("choices") {
        let ghost plain = values_of(choices@);
        proof {
            lemma_array_view(*choices);
        }
        let mut i: usize = 0;
        while i < choices.len()
            invariant
                i <= choices@.len(),
                plain == values_of(choices@),
                texts_in_choices(plain, 0).len() == drawn@.len() + texts_in_choices(
                    plain,
                    i as int,
                ).len(),
            decreases choices@.len() - i,
        {
            if let Json::Obj(fields) = &choices[i] {
                proof {
                    lemma_object_view(*fields);
                }
                draw_for_choice(fields, &mut drawn);
            }
            i = i + 1;
        }
    }
    drawn
}

/// Encrypts the messages in an answer that is fit for the client, each text with a fresh nonce;
/// `None` where one could not be drawn, or a text could not be encrypted. An answer without
/// choices stays as it is.
pub fn encrypt_answer(answer: &Json, ratchet: &mut StreamRatchet) -> (r: Option<Json>)
    requires
        old(ratchet).wf(),
    ensures
        final(ratchet).wf(),
        final(ratchet).aad() == old(ratchet).aad(),
        exists|drawn: Seq<Option<[u8; 12]>>|
            {
                &&& drawn.len() == texts_in_answer(answer@).len()
                &&& #[trigger] answer_outcome(answer@, ratchet_at(*old(ratchet)), drawn) == (
                    match r {
                        Some(shown) => Some(shown@),
                        None => None,
                    },
                    ratchet_at(*final(ratchet)),
                )
                &&& r is Some <==> texts_fit(
                    texts_in_answer(answer@),
                    ratchet_at(*old(ratchet)),
                    drawn,
                    old(ratchet).count(),
                )
            },
        match answer@.get("choices"@) {
            Some(JsonValue::Arr(choices)) => r matches Some(shown) ==> {
                &&& shown@ is Obj
                &&& exists|clean: Seq<JsonValue>|
                    {
                        &&& #[trigger] choices_encrypted(choices, clean, ratchet_at(*old(ratchet)))
                        &&& shown@ == JsonValue::Obj(
                            with_field(answer@->Obj_0, "choices"@, JsonValue::Arr(clean)),
                        )
                    }
                &&& ratchet_at(*final(ratchet)) == after_choices(
                    choices,
                    ratchet_at(*old(ratchet)),
                )
            },
            _ => *final(ratchet) == *old(ratchet) && r is Some && r->0@ == answer@,
        },
{
    let drawn = draw_for_answer(answer);
    encrypt_answer_with(answer, ratchet, &drawn)
}

/// The same fields once more.
pub(crate) fn copy_fields(fields: &Vec<(String, Json)>) -> (r: Vec<(String, Json)>)
    ensures
        fields_of(r@) == fields_of(fields@),
{
    let mut out: Vec<(String, Json)> = Vec::new();
    let mut i: usize = 0;
    while i < fields.len()
        invariant
            i <= fields@.len(),
            out@.len() == i,
            forall|j: int|
                0 <= j < i ==> (#[trigger] out@[j]).0@ == fields@[j].0@ && out@[j].1@
                    == fields@[j].1@,
        decreases fields@.len() - i,
    {
        out.push((fields[i].0.clone(), fields[i].1.copy()));
        i = i + 1;
    }
    proof {
        assert(fields_of(out@) =~= fields_of(fields@));
    }
    out
}

// ---------------------------------------------------------------------------
// Lengths that tell nothing
// ---------------------------------------------------------------------------

/// `n` times the letter X.
pub open spec fn filler(n: nat) -> Seq<char> {
    Seq::new(n, |i: int| 'X')
}

/// How much filler brings `len` up to the next multiple of `unit`; a full unit where it is
/// one already.
pub open spec fn fill_len(len: int, unit: int) -> int {
    unit - len % unit
}

fn make_filler(n: usize) -> (r: String)
    ensures
        r@ == filler(n as nat),
{
    let mut out: Vec<char> = Vec::new();
    let mut i: usize = 0;
    while i < n
        invariant
            i <= n,
            out@ == filler(i as nat),
        decreases n - i,
    {
        out.push('X');
        proof {
            assert(filler(i as nat).push('X') =~= filler((i + 1) as nat));
        }
        i = i + 1;
    }
    string_of_all(out.as_slice())
}

pub proof fn lemma_ascii_len(s: Seq<char>)
    requires
        vstd::utf8::is_ascii_chars(s),
    ensures
        byte_len(s) == s.len(),
{
    text::lemma_byte_len(s);
    vstd::utf8::is_ascii_chars_encode_utf8(s);
}

/// A line as an event whose bytes are a multiple of 256: a comment behind it is filled up.
pub open spec fn padded_line(line: Seq<char>) -> Seq<char> {
    line + "\n: "@ + filler(fill_len(byte_len(line) + 5, 256) as nat) + "\n\n"@
}

/// Makes a line an event whose bytes are a multiple of 256.
#[verifier::spinoff_prover]
#[verifier::rlimit(30)]
pub fn pad_raw_sse(line: &str) -> (r: String)
    requires
        encode_utf8(line@).len() + 5 <= usize::MAX,
    ensures
        r@ == padded_line(line@),
        byte_len(r@) % 256 == 0,
        byte_len(r@) == byte_len(line@) + 5 + fill_len(byte_len(line@) + 5, 256),
{
    let base: usize = line.as_bytes().len() + 5;
    let fill: usize = 256 - base % 256;
    let filling = make_filler(fill);
    proof {
        text::lemma_byte_len(line@);
        let f = filler(fill as nat);
        reveal_strlit("\n: ");
        reveal_strlit("\n\n");
        lemma_ascii_len("\n: "@);
        lemma_ascii_len("\n\n"@);
        lemma_ascii_len(f);
        text::lemma_byte_len_concat(line@, "\n: "@);
        text::lemma_byte_len_concat(line@ + "\n: "@, f);
        text::lemma_byte_len_concat(line@ + "\n: "@ + f, "\n\n"@);
    }
    text::cat4(line, "\n: ", filling.as_str(), "\n\n")
}

/// The filler for an event whose JSON text, with an empty filler in it, takes `json_len`
/// bytes: with it the whole event takes a multiple of 256.
pub fn sse_filler(json_len: usize) -> (r: String)
    requires
        json_len + 8 <= usize::MAX,
    ensures
        r@ == filler(fill_len(json_len + 8, 256) as nat),
        (json_len + 8 + r@.len()) % 256 == 0,
{
    let base: usize = 6 + json_len + 2;
    make_filler(256 - base % 256)
}

/// The filler for a body whose JSON text, with an empty filler in it, takes `json_len` bytes:
/// with it the body takes a multiple of 1024.
pub fn body_filler(json_len: usize) -> (r: String)
    ensures
        r@ == filler(fill_len(json_len as int, 1024) as nat),
        (json_len + r@.len()) % 1024 == 0,
{
    make_filler(1024 - json_len % 1024)
}

/// A JSON text as an event.
pub fn sse_event(json: &str) -> (r: String)
    ensures
        r@ == "data: "@ + json@ + "\n\n"@,
        byte_len(r@) == byte_len(json@) + 8,
{
    proof {
        reveal_strlit("data: ");
        reveal_strlit("\n\n");
        lemma_ascii_len("data: "@);
        lemma_ascii_len("\n\n"@);
        text::lemma_byte_len_concat("data: "@, json@);
        text::lemma_byte_len_concat("data: "@ + json@, "\n\n"@);
    }
    text::cat3("data: ", json, "\n\n")
}

/// An object with a text under the key `pad`, in the place of what stood there.
pub fn with_pad(json: Json, pad: &str) -> (r: Json)
    requires
        json@ is Obj,
    ensures
        r@ == JsonValue::Obj(with_field(json@->Obj_0, "pad"@, JsonValue::Str(pad@))),
{
    match json {
        Json::Obj(fields) => {
            proof {
                lemma_object_view(fields);
            }
            let mut out = fields;
            set_field(&mut out, "pad", Json::Str(pad.to_string()));
            proof {
                lemma_object_view(out);
            }
            Json::Obj(out)
        },
        other => other,
    }
}

/// An event whose JSON text grows by the filler takes a multiple of 256 bytes.
pub proof fn law_padded_event_length(empty: Seq<char>, filled: Seq<char>)
    requires
        byte_len(filled) == byte_len(empty) + fill_len(byte_len(empty) + 8, 256),
    ensures
        byte_len("data: "@ + filled + "\n\n"@) % 256 == 0,
{
    reveal_strlit("data: ");
    reveal_strlit("\n\n");
    lemma_ascii_len("data: "@);
    lemma_ascii_len("\n\n"@);
    text::lemma_byte_len_concat("data: "@, filled);
    text::lemma_byte_len_concat("data: "@ + filled, "\n\n"@);
    text::lemma_byte_len_bound(empty);
}

// ---------------------------------------------------------------------------
// Nothing else is passed on
// ---------------------------------------------------------------------------

/// Whether every field's name is among some names.
pub open spec fn only_names(fields: Seq<(Seq<char>, JsonValue)>, names: Set<Seq<char>>) -> bool {
    forall|i: int| 0 <= i < fields.len() ==> names.contains((#[trigger] fields[i]).0)
}

pub proof fn lemma_picked_names(
    fields: Seq<(Seq<char>, JsonValue)>,
    names: Seq<Seq<char>>,
    allowed: Set<Seq<char>>,
)
    requires
        forall|i: int| 0 <= i < names.len() ==> allowed.contains(#[trigger] names[i]),
    ensures
        only_names(picked(fields, names), allowed),
    decreases names.len(),
{
    if names.len() > 0 {
        lemma_picked_names(fields, names.drop_last(), allowed);
        assert(allowed.contains(names[names.len() - 1]));
    }
}

/// The names of the fields that a client can see at the root of an answer.
pub open spec fn visible_root() -> Set<Seq<char>> {
    set![
        "object"@,
        "created"@,
        "system_fingerprint"@,
        "id"@,
        "model"@,
        "provider"@,
        "choices"@,
        "usage"@,
    ]
}

/// The names of the fields that a client can see in a choice.
pub open spec fn visible_choice() -> Set<Seq<char>> {
    set!["index"@, "finish_reason"@, "logprobs"@, "message"@, "delta"@]
}

/// The names of the fields that a client can see in a message.
pub open spec fn visible_message() -> Set<Seq<char>> {
    set![
        "reasoning_content"@,
        "role"@,
        "content"@,
        "tool_calls"@,
        "function_call"@,
        "refusal"@,
    ]
}

/// A message passed on has no fields but the known ones.
pub proof fn law_message_shows_only_known_fields(
    fields: Seq<(Seq<char>, JsonValue)>,
    st: Option<Unredacting>,
    end: bool,
)
    ensures
        only_names(clean_message(fields, st, end).0, visible_message()),
{
    lemma_picked_names(fields, seq!["role"@], visible_message());
    lemma_picked_names(
        fields,
        seq!["tool_calls"@, "function_call"@, "refusal"@],
        visible_message(),
    );
}

/// A choice passed on has no fields but the known ones.
pub proof fn law_choice_shows_only_known_fields(
    fields: Seq<(Seq<char>, JsonValue)>,
    st: Option<Unredacting>,
)
    ensures
        only_names(clean_choice(fields, st).0, visible_choice()),
{
    lemma_picked_names(fields, choice_names(), visible_choice());
}

/// An answer passed on is an object with no fields but the known ones, and it names the
/// client's identifier and model and the provider, whatever the provider said of them.
pub proof fn law_answer_shows_only_known_fields(
    original: JsonValue,
    chat_id: Seq<char>,
    requested_model: Seq<char>,
    provider_id: Seq<char>,
    cost: JsonValue,
    st: Option<Unredacting>,
)
    requires
        original is Obj,
    ensures
        ({
            let shown = clean_answer(
                original,
                chat_id,
                requested_model,
                provider_id,
                cost,
                st,
            ).0;
            &&& shown is Obj
            &&& only_names(shown->Obj_0, visible_root())
            &&& shown.get("id"@) == Some(JsonValue::Str(chat_id))
            &&& shown.get("model"@) == Some(JsonValue::Str(requested_model))
            &&& shown.get("provider"@) == Some(JsonValue::Str(provider_id))
        }),
{
    let fields = original->Obj_0;
    let shown = clean_answer(original, chat_id, requested_model, provider_id, cost, st).0->Obj_0;
    lemma_picked_names(fields, root_names(), visible_root());
    let three = set!["object"@, "created"@, "system_fingerprint"@];
    lemma_picked_names(fields, root_names(), three);
    let start = picked(fields, root_names());
    let n = start.len() as int;
    reveal_strlit("object");
    reveal_strlit("created");
    reveal_strlit("system_fingerprint");
    reveal_strlit("id");
    reveal_strlit("model");
    reveal_strlit("provider");
    assert("id"@.len() == 2 && "model"@.len() == 5 && "provider"@.len() == 8);
    assert("object"@.len() == 6 && "created"@.len() == 7 && "system_fingerprint"@.len() == 18);
    assert(shown[n] == ("id"@, JsonValue::Str(chat_id)));
    assert(shown[n + 1] == ("model"@, JsonValue::Str(requested_model)));
    assert(shown[n + 2] == ("provider"@, JsonValue::Str(provider_id)));
    assert forall|j: int| 0 <= j < n implies (#[trigger] shown[j]).0 != "id"@ && shown[j].0
        != "model"@ && shown[j].0 != "provider"@ by {
        assert(shown[j] == start[j]);
        assert(three.contains(start[j].0));
    }
    lemma_key_at(shown, "id"@, 0);
    lemma_key_at(shown, "model"@, 0);
    lemma_key_at(shown, "provider"@, 0);
    assert(key_at(shown, "id"@, 0) == Some(n));
    assert(key_at(shown, "model"@, 0) == Some(n + 1));
    assert(key_at(shown, "provider"@, 0) == Some(n + 2));
}

} // verus!
