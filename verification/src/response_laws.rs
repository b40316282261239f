//! What holds of answers that are cleaned and then encrypted.

use vstd::prelude::*;
use vstd::utf8::encode_utf8;

use crate::crypto_e2ee::chunk_text;
use crate::json::field_of;
use crate::json::key_at;
use crate::json::law_fields_keep_what_they_are_given;
use crate::json::lemma_key_at;
use crate::json::JsonValue;
use crate::response::answer_outcome;
use crate::response::behind;
use crate::response::can_encrypt;
use crate::response::choice_names;
use crate::response::choice_outcome;
use crate::response::choices_outcome;
use crate::response::clean_answer;
use crate::response::clean_choice;
use crate::response::clean_choices;
use crate::response::clean_message;
use crate::response::fields_outcome;
use crate::response::is_message;
use crate::response::is_secret;
use crate::response::lemma_picked_names;
use crate::response::moved_on;
use crate::response::picked;
use crate::response::reasoning_of;
use crate::response::root_names;
use crate::response::sealed_text;
use crate::response::usage_names;
use crate::response::with_text_restored;
use crate::response::RatchetAt;
use crate::response::Unredacting;

verus! {

/// Fields that are not secret are passed over.
proof fn lemma_skip_fields(
    fields: Seq<(Seq<char>, JsonValue)>,
    i: int,
    n: int,
    r: RatchetAt,
    drawn: Seq<Option<[u8; 12]>>,
    from: nat,
)
    requires
        0 <= i <= n <= fields.len(),
        forall|j: int| i <= j < n ==> !is_secret(#[trigger] fields[j]),
    ensures
        fields_outcome(fields, i, r, drawn, from) == behind(
            fields.subrange(i, n),
            fields_outcome(fields, n, r, drawn, from),
        ),
    decreases n - i,
{
    let rest = fields_outcome(fields, n, r, drawn, from);
    if i < n {
        lemma_skip_fields(fields, i + 1, n, r, drawn, from);
        match rest.0 {
            Some(v) => {
                assert(seq![fields[i]] + (fields.subrange(i + 1, n) + v) =~= fields.subrange(i, n)
                    + v);
            },
            None => {},
        }
    } else {
        match rest.0 {
            Some(v) => {
                assert(fields.subrange(i, n) + v =~= v);
            },
            None => {},
        }
    }
}

/// Fields that are no messages are passed over.
proof fn lemma_skip_choice(
    fields: Seq<(Seq<char>, JsonValue)>,
    i: int,
    n: int,
    r: RatchetAt,
    drawn: Seq<Option<[u8; 12]>>,
    from: nat,
)
    requires
        0 <= i <= n <= fields.len(),
        forall|j: int| i <= j < n ==> !is_message(#[trigger] fields[j]),
    ensures
        choice_outcome(fields, i, r, drawn, from) == behind(
            fields.subrange(i, n),
            choice_outcome(fields, n, r, drawn, from),
        ),
    decreases n - i,
{
    let rest = choice_outcome(fields, n, r, drawn, from);
    if i < n {
        lemma_skip_choice(fields, i + 1, n, r, drawn, from);
        match rest.0 {
            Some(v) => {
                assert(seq![fields[i]] + (fields.subrange(i + 1, n) + v) =~= fields.subrange(i, n)
                    + v);
            },
            None => {},
        }
    } else {
        match rest.0 {
            Some(v) => {
                assert(fields.subrange(i, n) + v =~= v);
            },
            None => {},
        }
    }
}

/// The names that the proofs tell apart.
proof fn lemma_names_differ()
    ensures
        "reasoning_content"@.len() == 17,
        "content"@.len() == 7,
        "role"@.len() == 4,
        "tool_calls"@.len() == 10,
        "function_call"@.len() == 13,
        "refusal"@.len() == 7,
        "refusal"@ != "content"@,
        "message"@.len() == 7,
        "delta"@.len() == 5,
        "index"@.len() == 5,
        "index"@ != "delta"@,
        "finish_reason"@.len() == 13,
        "logprobs"@.len() == 8,
        "choices"@.len() == 7,
        "object"@.len() == 6,
        "created"@.len() == 7,
        "created"@ != "choices"@,
        "system_fingerprint"@.len() == 18,
        "id"@.len() == 2,
        "model"@.len() == 5,
        "provider"@.len() == 8,
{
    reveal_strlit("reasoning_content");
    reveal_strlit("content");
    reveal_strlit("role");
    reveal_strlit("tool_calls");
    reveal_strlit("function_call");
    reveal_strlit("refusal");
    reveal_strlit("message");
    reveal_strlit("delta");
    reveal_strlit("index");
    reveal_strlit("finish_reason");
    reveal_strlit("logprobs");
    reveal_strlit("choices");
    reveal_strlit("object");
    reveal_strlit("created");
    reveal_strlit("system_fingerprint");
    reveal_strlit("id");
    reveal_strlit("model");
    reveal_strlit("provider");
    assert("refusal"@[0] == 'r' && "content"@[0] == 'c');
    assert("index"@[0] == 'i' && "delta"@[0] == 'd');
    assert("created"@[1] == 'r' && "choices"@[1] == 'h');
}

/// Whether a message shows its reasoning and its content encrypted: the reasoning under the key
/// where the ratchet stands, with the first nonce, and the content under the next key, with the
/// second nonce.
pub open spec fn sealed_in_order(
    shown: JsonValue,
    reasoning: Seq<char>,
    content: Seq<char>,
    r: RatchetAt,
    first: Seq<u8>,
    second: Seq<u8>,
) -> bool {
    &&& shown.get("reasoning_content"@) == Some(
        JsonValue::Str(chunk_text(r.key, first, r.aad, encode_utf8(reasoning))),
    )
    &&& shown.get("content"@) == Some(
        JsonValue::Str(chunk_text(moved_on(r).key, second, r.aad, encode_utf8(content))),
    )
}

/// A cleaned message with reasoning and content comes out with both encrypted, the reasoning
/// before the content.
pub proof fn law_reasoning_is_sealed_before_content(
    message: Seq<(Seq<char>, JsonValue)>,
    reasoning: Seq<char>,
    content: Seq<char>,
    r: RatchetAt,
    drawn: Seq<Option<[u8; 12]>>,
)
    requires
        reasoning_of(message) == Some(JsonValue::Str(reasoning)),
        field_of(message, "content"@) == Some(JsonValue::Str(content)),
        drawn.len() >= 2,
        drawn[0] is Some,
        drawn[1] is Some,
        can_encrypt(reasoning, r),
        can_encrypt(content, moved_on(r)),
    ensures
        ({
            let out = fields_outcome(
                clean_message(message, None, true).0,
                0,
                r,
                drawn,
                r.count,
            );
            &&& out.0 is Some
            &&& out.1 == moved_on(moved_on(r))
            &&& sealed_in_order(
                JsonValue::Obj(out.0->0),
                reasoning,
                content,
                r,
                drawn[0]->0@,
                drawn[1]->0@,
            )
        }),
{
    lemma_names_differ();
    let clean = clean_message(message, None, true).0;
    let role = picked(message, seq!["role"@]);
    let tail = picked(message, seq!["tool_calls"@, "function_call"@, "refusal"@]);
    let p = 1 + role.len() as int;
    let role_names = set!["role"@];
    let tail_names = set!["tool_calls"@, "function_call"@, "refusal"@];
    lemma_picked_names(message, seq!["role"@], role_names);
    lemma_picked_names(message, seq!["tool_calls"@, "function_call"@, "refusal"@], tail_names);
    assert(clean =~= seq![("reasoning_content"@, JsonValue::Str(reasoning))] + role + seq![
        ("content"@, JsonValue::Str(content)),
    ] + tail);
    assert(clean[0] == ("reasoning_content"@, JsonValue::Str(reasoning)));
    assert(clean[p] == ("content"@, JsonValue::Str(content)));
    assert forall|j: int| 1 <= j < p implies (#[trigger] clean[j]).0 == "role"@ by {
        assert(clean[j] == role[j - 1]);
        assert(role_names.contains(role[j - 1].0));
    }
    assert forall|j: int| p < j < clean.len() implies !is_secret(#[trigger] clean[j]) by {
        assert(clean[j] == tail[j - p - 1]);
        assert(tail_names.contains(tail[j - p - 1].0));
    }
    let from = r.count;
    let one = moved_on(r);
    let two = moved_on(one);
    lemma_skip_fields(clean, 1, p, one, drawn, from);
    lemma_skip_fields(clean, p + 1, clean.len() as int, two, drawn, from);
    let sealed_reasoning = ("reasoning_content"@, sealed_text(reasoning, r, drawn, from));
    let sealed_content = ("content"@, sealed_text(content, one, drawn, from));
    let last = clean.subrange(p + 1, clean.len() as int);
    let at_tail = fields_outcome(clean, p + 1, two, drawn, from);
    assert(last + Seq::<(Seq<char>, JsonValue)>::empty() =~= last);
    assert(at_tail == (Some(last), two));
    let at_content = fields_outcome(clean, p, one, drawn, from);
    assert(at_content == (Some(seq![sealed_content] + last), two));
    let at_role = fields_outcome(clean, 1, one, drawn, from);
    let middle = clean.subrange(1, p);
    assert(at_role == (Some(middle + (seq![sealed_content] + last)), two));
    let out = fields_outcome(clean, 0, r, drawn, from);
    let v = seq![sealed_reasoning] + (middle + (seq![sealed_content] + last));
    assert(out == (Some(v), two));
    assert(v[0] == sealed_reasoning);
    assert(v[p] == sealed_content);
    assert forall|j: int| 0 <= j < p implies (#[trigger] v[j]).0 != "content"@ by {
        if j > 0 {
            assert(v[j] == clean[j]);
        }
    }
    lemma_key_at(v, "reasoning_content"@, 0);
    lemma_key_at(v, "content"@, 0);
    assert(key_at(v, "reasoning_content"@, 0) == Some(0int));
    assert(key_at(v, "content"@, 0) == Some(p));
}

/// An answer with one choice, whose message has reasoning and content, comes out of cleaning
/// and encrypting with both encrypted, the reasoning before the content: two nonces are used,
/// and neither text is left in clear.
pub proof fn law_whole_answers_are_encrypted(
    original: JsonValue,
    chat_id: Seq<char>,
    requested_model: Seq<char>,
    provider_id: Seq<char>,
    cost: JsonValue,
    choice: Seq<(Seq<char>, JsonValue)>,
    message: Seq<(Seq<char>, JsonValue)>,
    reasoning: Seq<char>,
    content: Seq<char>,
    r: RatchetAt,
    drawn: Seq<Option<[u8; 12]>>,
)
    requires
        original.get("choices"@) == Some(JsonValue::Arr(seq![JsonValue::Obj(choice)])),
        field_of(choice, "message"@) == Some(JsonValue::Obj(message)),
        !(field_of(choice, "delta"@) matches Some(JsonValue::Obj(_))),
        reasoning_of(message) == Some(JsonValue::Str(reasoning)),
        field_of(message, "content"@) == Some(JsonValue::Str(content)),
        drawn.len() >= 2,
        drawn[0] is Some,
        drawn[1] is Some,
        can_encrypt(reasoning, r),
        can_encrypt(content, moved_on(r)),
    ensures
        ({
            let clean = clean_answer(
                original,
                chat_id,
                requested_model,
                provider_id,
                cost,
                None,
            ).0;
            let out = answer_outcome(clean, r, drawn);
            &&& out.0 is Some
            &&& out.1 == moved_on(moved_on(r))
            &&& out.0->0.get("choices"@) matches Some(JsonValue::Arr(choices))
            &&& choices.len() == 1
            &&& choices[0].get("message"@) matches Some(shown)
            &&& sealed_in_order(shown, reasoning, content, r, drawn[0]->0@, drawn[1]->0@)
        }),
{
    lemma_names_differ();
    let fields = original->Obj_0;
    let from = r.count;
    let two = moved_on(moved_on(r));
    // The choice.
    let start = picked(choice, choice_names());
    let start_names = set!["index"@, "finish_reason"@, "logprobs"@];
    lemma_picked_names(choice, choice_names(), start_names);
    let n = start.len() as int;
    let m = clean_message(message, None, true).0;
    let cleaned = clean_choice(choice, None).0;
    assert(cleaned =~= start.push(("message"@, JsonValue::Obj(m))));
    assert forall|j: int| 0 <= j < n implies !is_message(#[trigger] cleaned[j]) && cleaned[j].0
        != "message"@ by {
        assert(cleaned[j] == start[j]);
        assert(start_names.contains(start[j].0));
    }
    law_reasoning_is_sealed_before_content(message, reasoning, content, r, drawn);
    let sealed = fields_outcome(m, 0, r, drawn, from).0->0;
    lemma_skip_choice(cleaned, 0, n, r, drawn, from);
    assert(choice_outcome(cleaned, n + 1, two, drawn, from) == (
        Some(Seq::<(Seq<char>, JsonValue)>::empty()),
        two,
    ));
    let shown_message = ("message"@, JsonValue::Obj(sealed));
    assert(cleaned[n] == ("message"@, JsonValue::Obj(m)));
    assert(seq![shown_message] + Seq::<(Seq<char>, JsonValue)>::empty() =~= seq![shown_message]);
    assert(choice_outcome(cleaned, n, r, drawn, from) == (Some(seq![shown_message]), two));
    let v = cleaned.subrange(0, n) + seq![shown_message];
    assert(choice_outcome(cleaned, 0, r, drawn, from) == (Some(v), two));
    assert(v[n] == shown_message);
    assert forall|j: int| 0 <= j < n implies (#[trigger] v[j]).0 != "message"@ by {
        assert(v[j] == cleaned[j]);
    }
    lemma_key_at(v, "message"@, 0);
    assert(key_at(v, "message"@, 0) == Some(n));
    // The choices.
    let given = seq![JsonValue::Obj(choice)];
    assert(given.drop_last() =~= Seq::<JsonValue>::empty());
    reveal_with_fuel(clean_choices, 2);
    let choices = clean_choices(given, None).0;
    assert(choices =~= seq![JsonValue::Obj(cleaned)]);
    reveal_with_fuel(choices_outcome, 2);
    let out = seq![JsonValue::Obj(v)];
    assert(out + Seq::<JsonValue>::empty() =~= out);
    assert(choices_outcome(choices, 0, r, drawn, from) == (Some(out), two));
    // The answer.
    let all = clean_answer(original, chat_id, requested_model, provider_id, cost, None).0->Obj_0;
    let root = picked(fields, root_names());
    let root_set = set!["object"@, "created"@, "system_fingerprint"@];
    lemma_picked_names(fields, root_names(), root_set);
    let k = root.len() as int;
    assert(all[k] == ("id"@, JsonValue::Str(chat_id)));
    assert(all[k + 1] == ("model"@, JsonValue::Str(requested_model)));
    assert(all[k + 2] == ("provider"@, JsonValue::Str(provider_id)));
    assert(all[k + 3] == ("choices"@, JsonValue::Arr(choices)));
    assert forall|j: int| 0 <= j < k + 3 implies (#[trigger] all[j]).0 != "choices"@ by {
        if j < k {
            assert(all[j] == root[j]);
            assert(root_set.contains(root[j].0));
        }
    }
    lemma_key_at(all, "choices"@, 0);
    assert(key_at(all, "choices"@, 0) == Some(k + 3));
    law_fields_keep_what_they_are_given(all, "choices"@, JsonValue::Arr(out), "id"@);
}

// ---------------------------------------------------------------------------
// What is kept
// ---------------------------------------------------------------------------

/// A key is looked up in the first part, and in the second where the first lacks it.
pub proof fn lemma_field_of_concat(
    a: Seq<(Seq<char>, JsonValue)>,
    b: Seq<(Seq<char>, JsonValue)>,
    key: Seq<char>,
)
    ensures
        field_of(a + b, key) == (match field_of(a, key) {
            Some(v) => Some(v),
            None => field_of(b, key),
        }),
{
    let s = a + b;
    lemma_key_at(a, key, 0);
    lemma_key_at(b, key, 0);
    lemma_key_at(s, key, 0);
    assert forall|j: int| 0 <= j < a.len() implies s[j] == a[j] by {}
    assert forall|j: int| 0 <= j < b.len() implies s[a.len() + j] == b[j] by {}
    match key_at(a, key, 0) {
        Some(i) => {
            assert(s[i] == a[i]);
            let j = key_at(s, key, 0)->0;
            if j < i {
                assert(s[j] == a[j]);
            }
            assert(j == i);
        },
        None => {
            match key_at(b, key, 0) {
                Some(i) => {
                    assert(s[a.len() + i] == b[i]);
                    let j = key_at(s, key, 0)->0;
                    if j < a.len() {
                        assert(s[j] == a[j]);
                    } else if j < a.len() + i {
                        assert(s[j] == b[j - a.len()]);
                    }
                    assert(j == a.len() + i);
                },
                None => {
                    match key_at(s, key, 0) {
                        Some(j) => {
                            if j < a.len() {
                                assert(s[j] == a[j]);
                            } else {
                                assert(s[j] == b[j - a.len()]);
                            }
                        },
                        None => {},
                    }
                },
            }
        },
    }
}

pub proof fn lemma_field_of_one(key: Seq<char>, value: JsonValue, other: Seq<char>)
    ensures
        field_of(seq![(key, value)], other) == (if other == key {
            Some(value)
        } else {
            None
        }),
        field_of(Seq::<(Seq<char>, JsonValue)>::empty(), other) is None,
{
    lemma_key_at(seq![(key, value)], other, 0);
    lemma_key_at(Seq::<(Seq<char>, JsonValue)>::empty(), other, 0);
    let s = seq![(key, value)];
    assert(s[0] == (key, value));
}

/// Picked fields keep their values, and no others are there.
proof fn lemma_picked_field(
    fields: Seq<(Seq<char>, JsonValue)>,
    names: Seq<Seq<char>>,
    name: Seq<char>,
)
    ensures
        field_of(picked(fields, names), name) == (if names.contains(name) {
            field_of(fields, name)
        } else {
            None
        }),
    decreases names.len(),
{
    if names.len() == 0 {
        lemma_field_of_one(name, JsonValue::Null, name);
    } else {
        let front = names.drop_last();
        let last = names.last();
        let before = picked(fields, front);
        lemma_picked_field(fields, front, name);
        assert(names.contains(name) <==> front.contains(name) || name == last) by {
            if names.contains(name) && name != last {
                let i = choose|i: int| 0 <= i < names.len() && names[i] == name;
                assert(front[i] == name);
            }
            if front.contains(name) {
                let i = choose|i: int| 0 <= i < front.len() && front[i] == name;
                assert(names[i] == name);
            }
            assert(names[names.len() - 1] == last);
        }
        match field_of(fields, last) {
            Some(v) => {
                assert(before.push((last, v)) =~= before + seq![(last, v)]);
                lemma_field_of_concat(before, seq![(last, v)], name);
                lemma_field_of_one(last, v, name);
            },
            None => {},
        }
    }
}

/// Whether a name is that of a field which a message keeps as the provider gave it.
pub open spec fn is_kept_in_message(name: Seq<char>) -> bool {
    ||| name == "role"@
    ||| name == "tool_calls"@
    ||| name == "function_call"@
    ||| name == "refusal"@
}

/// A cleaned message has its role, calls and refusal exactly where the provider's message has
/// them, and with the same values.
pub proof fn law_message_keeps_its_fields(
    message: Seq<(Seq<char>, JsonValue)>,
    st: Option<Unredacting>,
    end: bool,
    name: Seq<char>,
)
    requires
        is_kept_in_message(name),
    ensures
        field_of(clean_message(message, st, end).0, name) == field_of(message, name),
{
    lemma_message_fields(message, st, end, name);
}

/// Without a text to put back, a cleaned message has the content as the provider gave it, and
/// the reasoning under its one name, from either of the names that providers use.
pub proof fn law_message_keeps_its_texts(message: Seq<(Seq<char>, JsonValue)>, end: bool)
    ensures
        field_of(clean_message(message, None, end).0, "content"@) == field_of(
            message,
            "content"@,
        ),
        field_of(message, "reasoning"@) is Some ==> field_of(
            clean_message(message, None, end).0,
            "reasoning_content"@,
        ) == field_of(message, "reasoning"@),
        field_of(message, "reasoning"@) is None ==> field_of(
            clean_message(message, None, end).0,
            "reasoning_content"@,
        ) == field_of(message, "reasoning_content"@),
        clean_message(message, None, end).1 is None,
{
    lemma_message_fields(message, None, end, "content"@);
    lemma_message_fields(message, None, end, "reasoning_content"@);
}

pub proof fn lemma_message_fields(
    message: Seq<(Seq<char>, JsonValue)>,
    st: Option<Unredacting>,
    end: bool,
    name: Seq<char>,
)
    ensures
        is_kept_in_message(name) ==> field_of(clean_message(message, st, end).0, name) == field_of(
            message,
            name,
        ),
        st is None && name == "content"@ ==> field_of(clean_message(message, st, end).0, name)
            == field_of(message, name),
        st is None && name == "reasoning_content"@ ==> field_of(
            clean_message(message, st, end).0,
            name,
        ) == reasoning_of(message),
        name == "reasoning_content"@ ==> (match reasoning_of(message) {
            Some(v) => field_of(clean_message(message, st, end).0, name) == Some(
                with_text_restored(st, v, end).0,
            ),
            None => field_of(clean_message(message, st, end).0, name) is None,
        }),
        name == "content"@ ==> ({
            let st1 = match reasoning_of(message) {
                Some(v) => with_text_restored(st, v, end).1,
                None => st,
            };
            match field_of(message, "content"@) {
                Some(v) => field_of(clean_message(message, st, end).0, name) == Some(
                    with_text_restored(st1, v, end).0,
                ),
                None => field_of(clean_message(message, st, end).0, name) is None,
            }
        }),
{
    lemma_names_differ();
    let role_names = seq!["role"@];
    let tail_names = seq!["tool_calls"@, "function_call"@, "refusal"@];
    let first = match reasoning_of(message) {
        Some(v) => seq![("reasoning_content"@, with_text_restored(st, v, end).0)],
        None => seq![],
    };
    let st1 = match reasoning_of(message) {
        Some(v) => with_text_restored(st, v, end).1,
        None => st,
    };
    let said = match field_of(message, "content"@) {
        Some(v) => seq![("content"@, with_text_restored(st1, v, end).0)],
        None => seq![],
    };
    let role = picked(message, role_names);
    let tail = picked(message, tail_names);
    let clean = clean_message(message, st, end).0;
    assert(clean =~= ((first + role) + said) + tail);
    lemma_field_of_concat((first + role) + said, tail, name);
    lemma_field_of_concat(first + role, said, name);
    lemma_field_of_concat(first, role, name);
    lemma_picked_field(message, role_names, name);
    lemma_picked_field(message, tail_names, name);
    lemma_field_of_one("reasoning_content"@, with_text_restored(st, JsonValue::Null, end).0, name);
    match reasoning_of(message) {
        Some(v) => {
            lemma_field_of_one("reasoning_content"@, with_text_restored(st, v, end).0, name);
        },
        None => {},
    }
    match field_of(message, "content"@) {
        Some(v) => {
            lemma_field_of_one("content"@, with_text_restored(st1, v, end).0, name);
        },
        None => {},
    }
    assert(role_names[0] == "role"@);
    assert(tail_names[0] == "tool_calls"@ && tail_names[1] == "function_call"@ && tail_names[2]
        == "refusal"@);
    assert(role_names.contains(name) <==> name == "role"@);
    assert(tail_names.contains(name) <==> name == "tool_calls"@ || name == "function_call"@ || name
        == "refusal"@);
}

/// Whether a name is that of a field which a choice keeps as the provider gave it.
pub open spec fn is_kept_in_choice(name: Seq<char>) -> bool {
    ||| name == "index"@
    ||| name == "finish_reason"@
    ||| name == "logprobs"@
}

/// A cleaned choice has its index, its reason to end and its probabilities exactly where the
/// provider's choice has them, and it has a message or a piece of one exactly where the
/// provider's choice has an object there, cleaned as a message is.
pub proof fn law_choice_keeps_its_fields(
    choice: Seq<(Seq<char>, JsonValue)>,
    st: Option<Unredacting>,
    name: Seq<char>,
)
    ensures
        is_kept_in_choice(name) ==> field_of(clean_choice(choice, st).0, name) == field_of(
            choice,
            name,
        ),
        match field_of(choice, "message"@) {
            Some(JsonValue::Obj(m)) => field_of(clean_choice(choice, st).0, "message"@) == Some(
                JsonValue::Obj(clean_message(m, st, true).0),
            ),
            _ => field_of(clean_choice(choice, st).0, "message"@) is None,
        },
        match field_of(choice, "delta"@) {
            Some(JsonValue::Obj(d)) => {
                let st1 = match field_of(choice, "message"@) {
                    Some(JsonValue::Obj(m)) => clean_message(m, st, true).1,
                    _ => st,
                };
                field_of(clean_choice(choice, st).0, "delta"@) == Some(
                    JsonValue::Obj(clean_message(d, st1, false).0),
                )
            },
            _ => field_of(clean_choice(choice, st).0, "delta"@) is None,
        },
{
    lemma_choice_fields(choice, st, name);
    lemma_choice_fields(choice, st, "message"@);
    lemma_choice_fields(choice, st, "delta"@);
}

pub proof fn lemma_choice_fields(
    choice: Seq<(Seq<char>, JsonValue)>,
    st: Option<Unredacting>,
    name: Seq<char>,
)
    ensures
        is_kept_in_choice(name) ==> field_of(clean_choice(choice, st).0, name) == field_of(
            choice,
            name,
        ),
        name == "message"@ ==> (match field_of(choice, "message"@) {
            Some(JsonValue::Obj(m)) => field_of(clean_choice(choice, st).0, name) == Some(
                JsonValue::Obj(clean_message(m, st, true).0),
            ),
            _ => field_of(clean_choice(choice, st).0, name) is None,
        }),
        name == "delta"@ ==> (match field_of(choice, "delta"@) {
            Some(JsonValue::Obj(d)) => {
                let st1 = match field_of(choice, "message"@) {
                    Some(JsonValue::Obj(m)) => clean_message(m, st, true).1,
                    _ => st,
                };
                field_of(clean_choice(choice, st).0, name) == Some(
                    JsonValue::Obj(clean_message(d, st1, false).0),
                )
            },
            _ => field_of(clean_choice(choice, st).0, name) is None,
        }),
{
    lemma_names_differ();
    let names = choice_names();
    let start = picked(choice, names);
    let message = match field_of(choice, "message"@) {
        Some(JsonValue::Obj(m)) => seq![
            ("message"@, JsonValue::Obj(clean_message(m, st, true).0)),
        ],
        _ => seq![],
    };
    let st1 = match field_of(choice, "message"@) {
        Some(JsonValue::Obj(m)) => clean_message(m, st, true).1,
        _ => st,
    };
    let delta = match field_of(choice, "delta"@) {
        Some(JsonValue::Obj(d)) => seq![
            ("delta"@, JsonValue::Obj(clean_message(d, st1, false).0)),
        ],
        _ => seq![],
    };
    assert(clean_choice(choice, st).0 =~= (start + message) + delta);
    lemma_field_of_concat(start + message, delta, name);
    lemma_field_of_concat(start, message, name);
    lemma_picked_field(choice, names, name);
    lemma_field_of_one("message"@, JsonValue::Null, name);
    match field_of(choice, "message"@) {
        Some(JsonValue::Obj(m)) => {
            lemma_field_of_one("message"@, JsonValue::Obj(clean_message(m, st, true).0), name);
        },
        _ => {},
    }
    match field_of(choice, "delta"@) {
        Some(JsonValue::Obj(d)) => {
            lemma_field_of_one("delta"@, JsonValue::Obj(clean_message(d, st1, false).0), name);
        },
        _ => {},
    }
    assert(names[0] == "index"@ && names[1] == "finish_reason"@ && names[2] == "logprobs"@);
    assert(names.contains(name) <==> is_kept_in_choice(name));
}

proof fn lemma_choices_without_state(choices: Seq<JsonValue>)
    requires
        forall|i: int| 0 <= i < choices.len() ==> (#[trigger] choices[i]) is Obj,
    ensures
        clean_choices(choices, None).1 is None,
        clean_choices(choices, None).0.len() == choices.len(),
        forall|i: int|
            0 <= i < choices.len() ==> #[trigger] clean_choices(choices, None).0[i]
                == JsonValue::Obj(clean_choice(choices[i]->Obj_0, None).0),
    decreases choices.len(),
{
    if choices.len() > 0 {
        let front = choices.drop_last();
        assert forall|i: int| 0 <= i < front.len() implies (#[trigger] front[i]) is Obj by {
            assert(choices[i] is Obj);
        }
        lemma_choices_without_state(front);
        assert(choices[choices.len() - 1] is Obj);
        let c = choices.last()->Obj_0;
        match field_of(c, "message"@) {
            Some(JsonValue::Obj(m)) => {
                law_message_keeps_its_texts(m, true);
            },
            _ => {},
        }
        match field_of(c, "delta"@) {
            Some(JsonValue::Obj(d)) => {
                law_message_keeps_its_texts(d, false);
            },
            _ => {},
        }
        assert forall|i: int| 0 <= i < choices.len() implies #[trigger] clean_choices(
            choices,
            None,
        ).0[i] == JsonValue::Obj(clean_choice(choices[i]->Obj_0, None).0) by {
            if i < front.len() {
                assert(clean_choices(front, None).0[i] == JsonValue::Obj(
                    clean_choice(front[i]->Obj_0, None).0,
                ));
            }
        }
    }
}

/// Whether a cleaned message is what was said: every known field has its value.
pub open spec fn message_is_kept(
    given: Seq<(Seq<char>, JsonValue)>,
    shown: Seq<(Seq<char>, JsonValue)>,
) -> bool {
    &&& field_of(shown, "role"@) == field_of(given, "role"@)
    &&& field_of(shown, "content"@) == field_of(given, "content"@)
    &&& field_of(shown, "tool_calls"@) == field_of(given, "tool_calls"@)
    &&& field_of(shown, "function_call"@) == field_of(given, "function_call"@)
    &&& field_of(shown, "refusal"@) == field_of(given, "refusal"@)
    &&& field_of(shown, "reasoning_content"@) == (if field_of(given, "reasoning"@) is Some {
        field_of(given, "reasoning"@)
    } else {
        field_of(given, "reasoning_content"@)
    })
}

/// Whether a cleaned choice is what was said.
pub open spec fn choice_is_kept(given: JsonValue, shown: JsonValue) -> bool {
    &&& shown is Obj
    &&& shown.get("index"@) == given.get("index"@)
    &&& shown.get("finish_reason"@) == given.get("finish_reason"@)
    &&& shown.get("logprobs"@) == given.get("logprobs"@)
    &&& match given.get("message"@) {
        Some(JsonValue::Obj(m)) => shown.get("message"@) matches Some(JsonValue::Obj(c))
            && message_is_kept(m, c),
        _ => shown.get("message"@) is None,
    }
    &&& match given.get("delta"@) {
        Some(JsonValue::Obj(d)) => shown.get("delta"@) matches Some(JsonValue::Obj(c))
            && message_is_kept(d, c),
        _ => shown.get("delta"@) is None,
    }
}

/// Nothing that a client is to see is lost in cleaning: an answer keeps its kind, time and
/// fingerprint, gets the client's identifier, the model asked for and the provider's name, and
/// has each choice in its place with all that its message says; its usage keeps the counts of
/// tokens and gets the cost.
pub proof fn law_answers_keep_what_they_say(
    original: JsonValue,
    chat_id: Seq<char>,
    requested_model: Seq<char>,
    provider_id: Seq<char>,
    cost: JsonValue,
)
    requires
        original is Obj,
    ensures
        ({
            let shown = clean_answer(
                original,
                chat_id,
                requested_model,
                provider_id,
                cost,
                None,
            ).0;
            &&& shown.get("object"@) == original.get("object"@)
            &&& shown.get("created"@) == original.get("created"@)
            &&& shown.get("system_fingerprint"@) == original.get("system_fingerprint"@)
            &&& shown.get("id"@) == Some(JsonValue::Str(chat_id))
            &&& shown.get("model"@) == Some(JsonValue::Str(requested_model))
            &&& shown.get("provider"@) == Some(JsonValue::Str(provider_id))
            &&& match original.get("choices"@) {
                Some(JsonValue::Arr(choices)) => (forall|i: int|
                    0 <= i < choices.len() ==> (#[trigger] choices[i]) is Obj) ==> (
                shown.get("choices"@) matches Some(JsonValue::Arr(out)) && out.len()
                    == choices.len() && forall|i: int|
                    0 <= i < choices.len() ==> choice_is_kept(#[trigger] choices[i], out[i])),
                _ => shown.get("choices"@) is None,
            }
            &&& match original.get("usage"@) {
                Some(JsonValue::Obj(u)) => {
                    &&& shown.get("usage"@) matches Some(JsonValue::Obj(out))
                    &&& field_of(out, "prompt_tokens"@) == field_of(u, "prompt_tokens"@)
                    &&& field_of(out, "completion_tokens"@) == field_of(u, "completion_tokens"@)
                    &&& field_of(out, "total_tokens"@) == field_of(u, "total_tokens"@)
                    &&& field_of(out, "cost"@) == Some(cost)
                },
                _ => shown.get("usage"@) is None,
            }
        }),
{
    lemma_names_differ();
    lemma_usage_names_differ();
    let shown = clean_answer(original, chat_id, requested_model, provider_id, cost, None).0;
    lemma_root_field(original, chat_id, requested_model, provider_id, cost, "object"@);
    lemma_root_field(original, chat_id, requested_model, provider_id, cost, "created"@);
    lemma_root_field(original, chat_id, requested_model, provider_id, cost, "system_fingerprint"@);
    lemma_root_field(original, chat_id, requested_model, provider_id, cost, "id"@);
    lemma_root_field(original, chat_id, requested_model, provider_id, cost, "model"@);
    lemma_root_field(original, chat_id, requested_model, provider_id, cost, "provider"@);
    lemma_root_field(original, chat_id, requested_model, provider_id, cost, "choices"@);
    lemma_root_field(original, chat_id, requested_model, provider_id, cost, "usage"@);
    match original.get("choices"@) {
        Some(JsonValue::Arr(choices)) => {
            if forall|i: int| 0 <= i < choices.len() ==> (#[trigger] choices[i]) is Obj {
                lemma_choices_without_state(choices);
                let out = clean_choices(choices, None).0;
                assert forall|i: int| 0 <= i < choices.len() implies choice_is_kept(
                    #[trigger] choices[i],
                    out[i],
                ) by {
                    let c = choices[i]->Obj_0;
                    assert(out[i] == JsonValue::Obj(clean_choice(c, None).0));
                    law_choice_keeps_its_fields(c, None, "index"@);
                    law_choice_keeps_its_fields(c, None, "finish_reason"@);
                    law_choice_keeps_its_fields(c, None, "logprobs"@);
                    match field_of(c, "message"@) {
                        Some(JsonValue::Obj(m)) => {
                            lemma_message_is_kept(m, true);
                        },
                        _ => {},
                    }
                    match field_of(c, "delta"@) {
                        Some(JsonValue::Obj(d)) => {
                            lemma_message_is_kept(d, false);
                        },
                        _ => {},
                    }
                }
            }
        },
        _ => {},
    }
    match original.get("usage"@) {
        Some(JsonValue::Obj(u)) => {
            lemma_usage_field(u, cost, "prompt_tokens"@);
            lemma_usage_field(u, cost, "completion_tokens"@);
            lemma_usage_field(u, cost, "total_tokens"@);
            lemma_usage_field(u, cost, "cost"@);
        },
        _ => {},
    }
}

proof fn lemma_message_is_kept(m: Seq<(Seq<char>, JsonValue)>, end: bool)
    ensures
        message_is_kept(m, clean_message(m, None, end).0),
        clean_message(m, None, end).1 is None,
{
    law_message_keeps_its_texts(m, end);
    law_message_keeps_its_fields(m, None, end, "role"@);
    law_message_keeps_its_fields(m, None, end, "tool_calls"@);
    law_message_keeps_its_fields(m, None, end, "function_call"@);
    law_message_keeps_its_fields(m, None, end, "refusal"@);
}

proof fn lemma_usage_names_differ()
    ensures
        "usage"@.len() == 5,
        "usage"@ != "model"@,
        "prompt_tokens"@.len() == 13,
        "completion_tokens"@.len() == 17,
        "total_tokens"@.len() == 12,
        "cost"@.len() == 4,
{
    reveal_strlit("usage");
    reveal_strlit("model");
    reveal_strlit("prompt_tokens");
    reveal_strlit("completion_tokens");
    reveal_strlit("total_tokens");
    reveal_strlit("cost");
    assert("usage"@[0] == 'u' && "model"@[0] == 'm');
}

proof fn lemma_usage_field(u: Seq<(Seq<char>, JsonValue)>, cost: JsonValue, name: Seq<char>)
    ensures
        ({
            let out = picked(u, usage_names()).push(("cost"@, cost));
            &&& name == "prompt_tokens"@ || name == "completion_tokens"@ || name == "total_tokens"@
                ==> field_of(out, name) == field_of(u, name)
            &&& name == "cost"@ ==> field_of(out, name) == Some(cost)
        }),
{
    lemma_usage_names_differ();
    let names = usage_names();
    let start = picked(u, names);
    assert(start.push(("cost"@, cost)) =~= start + seq![("cost"@, cost)]);
    lemma_field_of_concat(start, seq![("cost"@, cost)], name);
    lemma_field_of_one("cost"@, cost, name);
    lemma_picked_field(u, names, name);
    assert(names[0] == "prompt_tokens"@ && names[1] == "completion_tokens"@ && names[2]
        == "total_tokens"@);
}

proof fn lemma_root_field(
    original: JsonValue,
    chat_id: Seq<char>,
    requested_model: Seq<char>,
    provider_id: Seq<char>,
    cost: JsonValue,
    name: Seq<char>,
)
    requires
        original is Obj,
    ensures
        ({
            let shown = clean_answer(
                original,
                chat_id,
                requested_model,
                provider_id,
                cost,
                None,
            ).0;
            &&& shown is Obj
            &&& name == "object"@ || name == "created"@ || name == "system_fingerprint"@
                ==> shown.get(name) == original.get(name)
            &&& name == "id"@ ==> shown.get(name) == Some(JsonValue::Str(chat_id))
            &&& name == "model"@ ==> shown.get(name) == Some(JsonValue::Str(requested_model))
            &&& name == "provider"@ ==> shown.get(name) == Some(JsonValue::Str(provider_id))
            &&& name == "choices"@ ==> (match original.get("choices"@) {
                Some(JsonValue::Arr(choices)) => shown.get(name) == Some(
                    JsonValue::Arr(clean_choices(choices, None).0),
                ),
                _ => shown.get(name) is None,
            })
            &&& name == "usage"@ ==> (match original.get("usage"@) {
                Some(JsonValue::Obj(u)) => shown.get(name) == Some(
                    JsonValue::Obj(picked(u, usage_names()).push(("cost"@, cost))),
                ),
                _ => shown.get(name) is None,
            })
        }),
{
    lemma_names_differ();
    lemma_usage_names_differ();
    let fields = original->Obj_0;
    let names = root_names();
    let start = picked(fields, names);
    let three = seq![
        ("id"@, JsonValue::Str(chat_id)),
        ("model"@, JsonValue::Str(requested_model)),
        ("provider"@, JsonValue::Str(provider_id)),
    ];
    let choices = match field_of(fields, "choices"@) {
        Some(JsonValue::Arr(c)) => seq![("choices"@, JsonValue::Arr(clean_choices(c, None).0))],
        _ => seq![],
    };
    let usage = match field_of(fields, "usage"@) {
        Some(JsonValue::Obj(u)) => seq![
            ("usage"@, JsonValue::Obj(picked(u, usage_names()).push(("cost"@, cost)))),
        ],
        _ => seq![],
    };
    let shown = clean_answer(original, chat_id, requested_model, provider_id, cost, None).0;
    assert(shown->Obj_0 =~= ((start + three) + choices) + usage);
    lemma_field_of_concat((start + three) + choices, usage, name);
    lemma_field_of_concat(start + three, choices, name);
    lemma_field_of_concat(start, three, name);
    lemma_picked_field(fields, names, name);
    lemma_field_of_one("usage"@, JsonValue::Null, name);
    match field_of(fields, "choices"@) {
        Some(JsonValue::Arr(c)) => {
            lemma_field_of_one("choices"@, JsonValue::Arr(clean_choices(c, None).0), name);
        },
        _ => {},
    }
    match field_of(fields, "usage"@) {
        Some(JsonValue::Obj(u)) => {
            lemma_field_of_one(
                "usage"@,
                JsonValue::Obj(picked(u, usage_names()).push(("cost"@, cost))),
                name,
            );
        },
        _ => {},
    }
    assert(names[0] == "object"@ && names[1] == "created"@ && names[2] == "system_fingerprint"@);
    assert(names.contains(name) <==> name == "object"@ || name == "created"@ || name
        == "system_fingerprint"@);
    lemma_key_at(three, name, 0);
    assert(three[0].0 == "id"@ && three[1].0 == "model"@ && three[2].0 == "provider"@);
}

} // verus!
