//! What goes out of a stream, by what came in.

use vstd::prelude::*;
use vstd::utf8::encode_utf8;

use crate::chutes_call::stream_step_of;
use crate::chutes_call::StepKind;
use crate::chutes_e2ee::chunk_outcome;
use crate::chutes_e2ee::stream_key_outcome;
use crate::json::elements_at;
use crate::json::field_of;
use crate::json::law_fields_keep_what_they_are_given;
use crate::json::text_at;
use crate::json::unsigned_at;
use crate::json::JsonValue;
use crate::nearai_e2ee::v2_outcome;
use crate::nearai_stream::answer_opened;
use crate::nearai_stream::choice_opened;
use crate::nearai_stream::message_opened;
use crate::nearai_stream::near_answer_outcome;
use crate::nearai_stream::near_step;
use crate::nearai_stream::opening_error;
use crate::nearai_stream::NearStepKind;
use crate::response::RatchetAt;
use crate::response_laws::lemma_field_of_concat;
use crate::response_laws::lemma_field_of_one;
use crate::text::trimmed;
use crate::text::trimmed_end;
use crate::text::trimmed_start;
use crate::text::unicode_whitespace;
use crate::timing::beat;
use crate::timing::chunk_of;
use crate::timing::line_kind;
use crate::timing::meta_fields;
use crate::timing::text_field;
use crate::timing::usage_event;
use crate::timing::with_choices;
use crate::timing::with_event;
use crate::timing::with_event_head;
use crate::timing::Arrived;
use crate::timing::Emission;
use crate::timing::LineKind;
use crate::timing::StreamMeta;

verus! {

// ---------------------------------------------------------------------------
// Lines
// ---------------------------------------------------------------------------

/// Whether a text is all white space.
pub open spec fn blank(s: Seq<char>) -> bool {
    forall|i: int| 0 <= i < s.len() ==> unicode_whitespace(#[trigger] s[i])
}

/// Whether a text has no white space at either end.
pub open spec fn tight(s: Seq<char>) -> bool {
    s.len() > 0 ==> !unicode_whitespace(s[0]) && !unicode_whitespace(s.last())
}

/// White space around a text is taken off, and nothing else.
pub proof fn law_white_space_is_taken_off(before: Seq<char>, s: Seq<char>, after: Seq<char>)
    requires
        blank(before),
        blank(after),
        tight(s),
    ensures
        trimmed(before + s + after) == s,
{
    lemma_trimmed_start(before, s + after);
    assert(before + s + after =~= before + (s + after));
    if s.len() > 0 {
        assert((s + after)[0] == s[0]);
        assert(trimmed_start(s + after) == s + after);
        lemma_trimmed_end(s, after);
    } else {
        assert(s + after =~= after);
        assert(after + Seq::<char>::empty() =~= after);
        lemma_trimmed_start(after, Seq::<char>::empty());
        assert(trimmed_start(after) =~= s);
        assert(trimmed_end(s) == s);
    }
}

proof fn lemma_trimmed_start(before: Seq<char>, s: Seq<char>)
    requires
        blank(before),
    ensures
        trimmed_start(before + s) == trimmed_start(s),
    decreases before.len(),
{
    let all = before + s;
    if before.len() > 0 {
        assert(all[0] == before[0]);
        assert(unicode_whitespace(before[0]));
        assert(all.skip(1) =~= before.skip(1) + s);
        assert(blank(before.skip(1)));
        lemma_trimmed_start(before.skip(1), s);
    } else {
        assert(all =~= s);
    }
}

pub proof fn lemma_trimmed_end(s: Seq<char>, after: Seq<char>)
    requires
        blank(after),
        s.len() > 0,
        !unicode_whitespace(s.last()),
    ensures
        trimmed_end(s + after) == s,
    decreases after.len(),
{
    let all = s + after;
    if after.len() > 0 {
        assert(all.last() == after.last());
        assert(unicode_whitespace(after[after.len() - 1]));
        assert(all.drop_last() =~= s + after.drop_last());
        assert(blank(after.drop_last()));
        lemma_trimmed_end(s, after.drop_last());
    } else {
        assert(all =~= s);
    }
}

/// A line of a stream, with or without white space around it: one with nothing on it is
/// nothing, "data: " is followed by the event or by the word for the end, a brace begins an
/// event without that, and anything else is taken as it is.
pub proof fn law_lines_are_told_apart(
    before: Seq<char>,
    gap: Seq<char>,
    content: Seq<char>,
    after: Seq<char>,
)
    requires
        blank(before),
        blank(gap),
        blank(after),
        content.len() > 0,
        tight(content),
        !unicode_whitespace('d'),
    ensures
        line_kind(before + after) is Nothing,
        content == "[DONE]"@ ==> line_kind(before + ("data: "@ + gap + content) + after) is Done,
        content != "[DONE]"@ ==> line_kind(before + ("data: "@ + gap + content) + after)
            == LineKind::Data(content),
        content[0] == '{' ==> line_kind(before + content + after) == LineKind::Bare(content),
        content[0] != '{' && !crate::text::has_prefix(content, "data: "@) ==> line_kind(
            before + content + after,
        ) == LineKind::Other(content),
{
    reveal_strlit("data: ");
    let none = Seq::<char>::empty();
    let mark = "data: "@;
    assert(mark.len() == 6 && mark[0] == 'd');
    law_white_space_is_taken_off(before, none, after);
    assert(before + none + after =~= before + after);
    law_white_space_is_taken_off(before, content, after);
    let t = mark + gap + content;
    assert(t[0] == mark[0] && t.last() == content.last());
    law_white_space_is_taken_off(before, t, after);
    assert(t.subrange(0, 6) =~= mark);
    assert(t.skip(6) =~= gap + content);
    law_white_space_is_taken_off(gap, content, none);
    assert(gap + content + none =~= gap + content);
    if content[0] == '{' && crate::text::has_prefix(content, mark) {
        assert(content.subrange(0, 6)[0] == content[0]);
    }
}

// ---------------------------------------------------------------------------
// What arrives
// ---------------------------------------------------------------------------

/// What one choice of an event adds: its content and its reasoning are put behind what was
/// there, and its reason to finish takes the place of any before it.
pub proof fn law_choices_are_put_behind(
    a: Arrived,
    choices: Seq<JsonValue>,
    choice: JsonValue,
    delta: JsonValue,
)
    requires
        choice.get("delta"@) == Some(delta),
    ensures
        ({
            let b = with_choices(a, choices);
            let c = with_choices(a, choices.push(choice));
            &&& text_at(delta, "content"@) matches Some(t) ==> c.content == b.content + t
            &&& text_at(delta, "content"@) is None ==> c.content == b.content
            &&& text_at(delta, "reasoning_content"@) matches Some(t) ==> c.reasoning == b.reasoning
                + t
            &&& text_at(delta, "reasoning_content"@) is None ==> c.reasoning == b.reasoning
            &&& text_at(choice, "finish_reason"@) matches Some(t) ==> c.finish == Some(t)
            &&& text_at(choice, "finish_reason"@) is None ==> c.finish == b.finish
            &&& c.meta == b.meta && c.usage == b.usage && c.error == b.error
        }),
        with_choices(a, seq![]) == a,
{
    assert(choices.push(choice).drop_last() =~= choices);
}

/// What an event says of the answer as a whole: its name, its kind, its time, its model and
/// whom it came from are taken from the first event that tells them; the usage and an error
/// from the last.
pub proof fn law_first_event_names_the_answer(a: Arrived, event: JsonValue)
    ensures
        ({
            let b = with_event(a, event);
            &&& b.meta.id == (if a.meta.id is Some {
                a.meta.id
            } else {
                text_at(event, "id"@)
            })
            &&& b.meta.object == (if a.meta.object is Some {
                a.meta.object
            } else {
                text_at(event, "object"@)
            })
            &&& b.meta.created == (if a.meta.created is Some {
                a.meta.created
            } else {
                unsigned_at(event, "created"@)
            })
            &&& b.meta.model == (if a.meta.model is Some {
                a.meta.model
            } else {
                text_at(event, "model"@)
            })
            &&& b.meta.provider == (if a.meta.provider is Some {
                a.meta.provider
            } else {
                text_at(event, "provider"@)
            })
            &&& b.meta.fingerprint == (if a.meta.fingerprint is Some {
                a.meta.fingerprint
            } else {
                text_at(event, "system_fingerprint"@)
            })
            &&& b.usage == (if event.get("usage"@) is Some {
                event.get("usage"@)
            } else {
                a.usage
            })
            &&& b.error == (if event.get("error"@) is Some {
                event.get("error"@)
            } else {
                a.error
            })
            &&& b.upstream_done == a.upstream_done
            &&& b.sent_done == a.sent_done
            &&& b.got_choices <==> a.got_choices || (elements_at(event, "choices"@) is Some
                && elements_at(event, "choices"@)->0.len() > 0)
        }),
{
    match elements_at(event, "choices"@) {
        Some(choices) => {
            let b = with_event_head(a, event);
            lemma_choices_leave_the_rest(
                Arrived { got_choices: b.got_choices || choices.len() > 0, ..b },
                choices,
            );
        },
        None => {},
    }
}

proof fn lemma_choices_leave_the_rest(a: Arrived, choices: Seq<JsonValue>)
    ensures
        with_choices(a, choices).meta == a.meta,
        with_choices(a, choices).usage == a.usage,
        with_choices(a, choices).error == a.error,
        with_choices(a, choices).upstream_done == a.upstream_done,
        with_choices(a, choices).sent_done == a.sent_done,
        with_choices(a, choices).got_choices == a.got_choices,
    decreases choices.len(),
{
    if choices.len() > 0 {
        lemma_choices_leave_the_rest(a, choices.drop_last());
    }
}

// ---------------------------------------------------------------------------
// What goes out
// ---------------------------------------------------------------------------

proof fn lemma_names()
    ensures
        "id"@ != "object"@,
        "id"@ != "created"@,
        "id"@ != "model"@,
        "id"@ != "provider"@,
        "id"@ != "system_fingerprint"@,
        "object"@ != "created"@,
        "object"@ != "model"@,
        "object"@ != "provider"@,
        "object"@ != "system_fingerprint"@,
        "created"@ != "model"@,
        "created"@ != "provider"@,
        "created"@ != "system_fingerprint"@,
        "model"@ != "provider"@,
        "model"@ != "system_fingerprint"@,
        "provider"@ != "system_fingerprint"@,
        "choices"@ != "id"@,
        "choices"@ != "object"@,
        "choices"@ != "created"@,
        "choices"@ != "model"@,
        "choices"@ != "provider"@,
        "choices"@ != "system_fingerprint"@,
        "usage"@ != "id"@,
        "usage"@ != "object"@,
        "usage"@ != "created"@,
        "usage"@ != "model"@,
        "usage"@ != "provider"@,
        "usage"@ != "system_fingerprint"@,
        "usage"@ != "choices"@,
        "index"@ != "delta"@,
        "index"@ != "finish_reason"@,
        "delta"@ != "finish_reason"@,
        "content"@ != "reasoning_content"@,
{
    reveal_strlit("id");
    reveal_strlit("object");
    reveal_strlit("created");
    reveal_strlit("model");
    reveal_strlit("provider");
    reveal_strlit("system_fingerprint");
    reveal_strlit("choices");
    reveal_strlit("usage");
    reveal_strlit("index");
    reveal_strlit("delta");
    reveal_strlit("finish_reason");
    reveal_strlit("content");
    reveal_strlit("reasoning_content");
    assert("id"@.len() == 2 && "object"@.len() == 6 && "created"@.len() == 7 && "model"@.len() == 5
        && "provider"@.len() == 8 && "system_fingerprint"@.len() == 18 && "choices"@.len() == 7
        && "usage"@.len() == 5 && "index"@.len() == 5 && "delta"@.len() == 5
        && "finish_reason"@.len() == 13 && "content"@.len() == 7 && "reasoning_content"@.len()
        == 17);
    assert("created"@[1] == 'r' && "choices"@[1] == 'h');
    assert("model"@[0] == 'm' && "usage"@[0] == 'u');
    assert("index"@[0] == 'i' && "delta"@[0] == 'd');
}

/// A text, if there is one, as a value.
pub open spec fn text_value(t: Option<Seq<char>>) -> Option<JsonValue> {
    match t {
        Some(s) => Some(JsonValue::Str(s)),
        None => None,
    }
}

proof fn lemma_text_field(key: Seq<char>, v: Option<Seq<char>>, other: Seq<char>)
    ensures
        field_of(text_field(key, v), other) == (if other == key {
            text_value(v)
        } else {
            None
        }),
{
    match v {
        Some(s) => {
            lemma_field_of_one(key, JsonValue::Str(s), other);
        },
        None => {
            lemma_field_of_one(key, JsonValue::Null, other);
        },
    }
}

proof fn lemma_meta_field(m: StreamMeta)
    ensures
        field_of(meta_fields(m), "id"@) == text_value(m.id),
        field_of(meta_fields(m), "object"@) == text_value(m.object),
        field_of(meta_fields(m), "created"@) == (match m.created {
            Some(n) => Some(JsonValue::Unsigned(n)),
            None => None,
        }),
        field_of(meta_fields(m), "model"@) == text_value(m.model),
        field_of(meta_fields(m), "provider"@) == text_value(m.provider),
        field_of(meta_fields(m), "system_fingerprint"@) == text_value(m.fingerprint),
        field_of(meta_fields(m), "choices"@) is None,
        field_of(meta_fields(m), "usage"@) is None,
{
    lemma_names();
    lemma_meta_field_of(m, "id"@);
    lemma_meta_field_of(m, "object"@);
    lemma_meta_field_of(m, "created"@);
    lemma_meta_field_of(m, "model"@);
    lemma_meta_field_of(m, "provider"@);
    lemma_meta_field_of(m, "system_fingerprint"@);
    lemma_meta_field_of(m, "choices"@);
    lemma_meta_field_of(m, "usage"@);
}

proof fn lemma_meta_field_of(m: StreamMeta, key: Seq<char>)
    ensures
        field_of(meta_fields(m), key) == (if key == "id"@ && m.id is Some {
            text_value(m.id)
        } else if key == "object"@ && m.object is Some {
            text_value(m.object)
        } else if key == "created"@ && m.created is Some {
            Some(JsonValue::Unsigned(m.created->0))
        } else if key == "model"@ && m.model is Some {
            text_value(m.model)
        } else if key == "provider"@ && m.provider is Some {
            text_value(m.provider)
        } else if key == "system_fingerprint"@ && m.fingerprint is Some {
            text_value(m.fingerprint)
        } else {
            None
        }),
{
    let a = text_field("id"@, m.id);
    let b = text_field("object"@, m.object);
    let c: Seq<(Seq<char>, JsonValue)> = match m.created {
        Some(n) => seq![("created"@, JsonValue::Unsigned(n))],
        None => seq![],
    };
    let d = text_field("model"@, m.model);
    let e = text_field("provider"@, m.provider);
    let f = text_field("system_fingerprint"@, m.fingerprint);
    lemma_text_field("id"@, m.id, key);
    lemma_text_field("object"@, m.object, key);
    lemma_text_field("model"@, m.model, key);
    lemma_text_field("provider"@, m.provider, key);
    lemma_text_field("system_fingerprint"@, m.fingerprint, key);
    match m.created {
        Some(n) => {
            lemma_field_of_one("created"@, JsonValue::Unsigned(n), key);
        },
        None => {
            lemma_field_of_one("created"@, JsonValue::Null, key);
        },
    }
    lemma_field_of_concat(a, b, key);
    lemma_field_of_concat(a + b, c, key);
    lemma_field_of_concat(a + b + c, d, key);
    lemma_field_of_concat(a + b + c + d, e, key);
    lemma_field_of_concat(a + b + c + d + e, f, key);
}

/// Whether an event says who answers: all that is known of it, and nothing else.
pub open spec fn names_the_answer(event: JsonValue, m: StreamMeta) -> bool {
    &&& event.get("id"@) == text_value(m.id)
    &&& event.get("object"@) == text_value(m.object)
    &&& event.get("created"@) == (match m.created {
        Some(n) => Some(JsonValue::Unsigned(n)),
        None => None,
    })
    &&& event.get("model"@) == text_value(m.model)
    &&& event.get("provider"@) == text_value(m.provider)
    &&& event.get("system_fingerprint"@) == text_value(m.fingerprint)
}

/// A chunk holds one choice, with all the content and the reasoning that arrived since the
/// last one, the reason to finish if there is one, and who answers.
pub proof fn law_chunks_hold_what_arrived(a: Arrived)
    ensures
        names_the_answer(chunk_of(a), a.meta),
        chunk_of(a).get("usage"@) is None,
        elements_at(chunk_of(a), "choices"@) matches Some(choices) && choices.len() == 1 && {
            &&& choices[0].get("index"@) == Some(JsonValue::Unsigned(0))
            &&& choices[0].get("finish_reason"@) == text_value(a.finish)
            &&& choices[0].get("delta"@) matches Some(delta) && {
                &&& a.content.len() > 0 ==> text_at(delta, "content"@) == Some(a.content)
                &&& a.content.len() == 0 ==> delta.get("content"@) is None
                &&& a.reasoning.len() > 0 ==> text_at(delta, "reasoning_content"@) == Some(
                    a.reasoning,
                )
                &&& a.reasoning.len() == 0 ==> delta.get("reasoning_content"@) is None
            }
        },
{
    lemma_names();
    lemma_meta_field(a.meta);
    let content = crate::timing::if_any(a.content);
    let reasoning = crate::timing::if_any(a.reasoning);
    let x = text_field("content"@, content);
    let y = text_field("reasoning_content"@, reasoning);
    let delta = x + y;
    lemma_text_field("content"@, content, "content"@);
    lemma_text_field("content"@, content, "reasoning_content"@);
    lemma_text_field("reasoning_content"@, reasoning, "content"@);
    lemma_text_field("reasoning_content"@, reasoning, "reasoning_content"@);
    lemma_field_of_concat(x, y, "content"@);
    lemma_field_of_concat(x, y, "reasoning_content"@);
    let head = seq![("index"@, JsonValue::Unsigned(0)), ("delta"@, JsonValue::Obj(delta))];
    let tail = text_field("finish_reason"@, a.finish);
    lemma_two_fields("index"@, JsonValue::Unsigned(0), "delta"@, JsonValue::Obj(delta), "index"@);
    lemma_two_fields("index"@, JsonValue::Unsigned(0), "delta"@, JsonValue::Obj(delta), "delta"@);
    lemma_two_fields(
        "index"@,
        JsonValue::Unsigned(0),
        "delta"@,
        JsonValue::Obj(delta),
        "finish_reason"@,
    );
    lemma_field_of_concat(head, tail, "index"@);
    lemma_field_of_concat(head, tail, "delta"@);
    lemma_field_of_concat(head, tail, "finish_reason"@);
    lemma_text_field("finish_reason"@, a.finish, "finish_reason"@);
    let choices = JsonValue::Arr(seq![JsonValue::Obj(head + tail)]);
    lemma_root(choices, a.meta);
}

proof fn lemma_two_fields(
    a: Seq<char>,
    x: JsonValue,
    b: Seq<char>,
    y: JsonValue,
    key: Seq<char>,
)
    requires
        a != b,
    ensures
        field_of(seq![(a, x), (b, y)], key) == (if key == a {
            Some(x)
        } else if key == b {
            Some(y)
        } else {
            None
        }),
{
    lemma_field_of_one(a, x, key);
    lemma_field_of_one(b, y, key);
    lemma_field_of_concat(seq![(a, x)], seq![(b, y)], key);
    assert(seq![(a, x)] + seq![(b, y)] =~= seq![(a, x), (b, y)]);
}

proof fn lemma_root(choices: JsonValue, m: StreamMeta)
    ensures
        ({
            let all = seq![("choices"@, choices)] + meta_fields(m);
            &&& names_the_answer(JsonValue::Obj(all), m)
            &&& field_of(all, "choices"@) == Some(choices)
            &&& field_of(all, "usage"@) is None
        }),
{
    lemma_names();
    lemma_meta_field(m);
    let one = seq![("choices"@, choices)];
    let rest = meta_fields(m);
    lemma_field_of_one("choices"@, choices, "choices"@);
    lemma_field_of_one("choices"@, choices, "usage"@);
    lemma_field_of_one("choices"@, choices, "id"@);
    lemma_field_of_one("choices"@, choices, "object"@);
    lemma_field_of_one("choices"@, choices, "created"@);
    lemma_field_of_one("choices"@, choices, "model"@);
    lemma_field_of_one("choices"@, choices, "provider"@);
    lemma_field_of_one("choices"@, choices, "system_fingerprint"@);
    lemma_field_of_concat(one, rest, "choices"@);
    lemma_field_of_concat(one, rest, "usage"@);
    lemma_field_of_concat(one, rest, "id"@);
    lemma_field_of_concat(one, rest, "object"@);
    lemma_field_of_concat(one, rest, "created"@);
    lemma_field_of_concat(one, rest, "model"@);
    lemma_field_of_concat(one, rest, "provider"@);
    lemma_field_of_concat(one, rest, "system_fingerprint"@);
}

/// The usage is told in an event of its own, with no choices, that says who answers.
pub proof fn law_usage_is_told_apart(m: StreamMeta, usage: JsonValue)
    ensures
        names_the_answer(usage_event(m, usage), m),
        usage_event(m, usage).get("usage"@) == Some(usage),
        elements_at(usage_event(m, usage), "choices"@) matches Some(choices) && choices.len() == 0,
{
    lemma_names();
    let none = JsonValue::Arr(seq![]);
    lemma_root(none, m);
    let front = seq![("choices"@, none)] + meta_fields(m);
    let end = seq![("usage"@, usage)];
    assert(front.push(("usage"@, usage)) =~= front + end);
    lemma_field_of_concat(front, end, "usage"@);
    lemma_field_of_concat(front, end, "choices"@);
    lemma_field_of_concat(front, end, "id"@);
    lemma_field_of_concat(front, end, "object"@);
    lemma_field_of_concat(front, end, "created"@);
    lemma_field_of_concat(front, end, "model"@);
    lemma_field_of_concat(front, end, "provider"@);
    lemma_field_of_concat(front, end, "system_fingerprint"@);
    lemma_field_of_one("usage"@, usage, "usage"@);
    lemma_field_of_one("usage"@, usage, "choices"@);
    lemma_field_of_one("usage"@, usage, "id"@);
    lemma_field_of_one("usage"@, usage, "object"@);
    lemma_field_of_one("usage"@, usage, "created"@);
    lemma_field_of_one("usage"@, usage, "model"@);
    lemma_field_of_one("usage"@, usage, "provider"@);
    lemma_field_of_one("usage"@, usage, "system_fingerprint"@);
}

/// Whether an event holds one choice with nothing in it.
pub open spec fn says_nothing_new(event: JsonValue) -> bool {
    elements_at(event, "choices"@) matches Some(choices) && choices.len() == 1 && choices[0].get(
        "delta"@,
    ) == Some(JsonValue::Obj(seq![]))
}

/// What a beat sends: an error before anything else, then what arrived, in the clear where
/// there is no session, then, once the provider is done, the usage and the end; and where
/// there is nothing to say, an event that says nothing. Nothing that was sent is sent again,
/// and who answers is remembered.
pub proof fn law_beats_send_in_order(
    a: Arrived,
    r: Option<RatchetAt>,
    written: Seq<char>,
    drawn: Option<Seq<u8>>,
    out: Emission,
    after: Arrived,
    after_r: Option<RatchetAt>,
)
    requires
        beat(a, r, written, drawn, out, after, after_r),
        !a.sent_done,
        !(out is Failed),
    ensures
        ({
            let news = a.got_choices || a.content.len() > 0 || a.reasoning.len() > 0 || a.finish
                is Some;
            &&& a.error is Some ==> out is Event && out->Event_0@.get("error"@) == a.error
                && after.sent_done
            &&& a.error is None && news ==> out is Event && !after.sent_done && after.usage
                == a.usage
            &&& a.error is None && news && r is None ==> out->Event_0@ == chunk_of(a)
            &&& a.error is None && !news && a.upstream_done && a.usage is Some ==> out is Event
                && out->Event_0@ == usage_event(a.meta, a.usage->0) && after.usage is None
                && !after.sent_done
            &&& a.error is None && !news && a.upstream_done && a.usage is None ==> out is Done
                && after.sent_done
            &&& a.error is None && !news && !a.upstream_done ==> out is Event
                && !after.sent_done && after.usage == a.usage && out->Event_0@.get("usage"@)
                is None && says_nothing_new(out->Event_0@)
            &&& after.content.len() == 0 && after.reasoning.len() == 0 && after.finish is None
                && after.error is None && !after.got_choices
            &&& after.meta == a.meta && after.upstream_done == a.upstream_done
            &&& !(a.error is None && news) ==> after_r == r
        }),
{
    lemma_names();
    if a.error is Some {
        lemma_field_of_one("error"@, a.error->0, "error"@);
    }
    let delta = JsonValue::Obj(seq![("delta"@, JsonValue::Obj(seq![]))]);
    lemma_field_of_one("choices"@, JsonValue::Arr(seq![delta]), "choices"@);
    lemma_field_of_one("choices"@, JsonValue::Arr(seq![delta]), "usage"@);
    lemma_field_of_one("delta"@, JsonValue::Obj(seq![]), "delta"@);
}

// ---------------------------------------------------------------------------
// Sealed streams
// ---------------------------------------------------------------------------

/// Each of the two texts of a sealed message is replaced by what it opens to, where it is
/// long enough to be sealed; every other field stays.
pub proof fn law_sealed_messages_are_opened(
    fields: Seq<(Seq<char>, JsonValue)>,
    secret: Seq<u8>,
    content: Seq<char>,
    said: Seq<char>,
    key: Seq<char>,
    other: Seq<char>,
)
    requires
        key == "content"@ || key == "reasoning_content"@,
        field_of(fields, key) == Some(JsonValue::Str(content)),
        other != "content"@ && other != "reasoning_content"@,
    ensures
        ({
            let (opened, error) = message_opened(fields, secret);
            &&& encode_utf8(content).len() >= 112 && v2_outcome(content, secret) == Ok::<
                Seq<char>,
                Seq<char>,
            >(said) ==> field_of(opened, key) == Some(JsonValue::Str(said))
            &&& encode_utf8(content).len() >= 112 && v2_outcome(content, secret) is Err
                ==> error is Some
            &&& encode_utf8(content).len() < 112 ==> field_of(opened, key) == Some(
                JsonValue::Str(content),
            )
            &&& field_of(opened, other) == field_of(fields, other)
        }),
{
    lemma_names();
    let (once, first) = crate::nearai_stream::field_opened(fields, "content"@, secret);
    let (twice, second) = crate::nearai_stream::field_opened(once, "reasoning_content"@, secret);
    lemma_field_opened(fields, "content"@, secret, "reasoning_content"@);
    lemma_field_opened(fields, "content"@, secret, other);
    lemma_field_opened(once, "reasoning_content"@, secret, "content"@);
    lemma_field_opened(once, "reasoning_content"@, secret, other);
}

proof fn lemma_field_opened(
    fields: Seq<(Seq<char>, JsonValue)>,
    key: Seq<char>,
    secret: Seq<u8>,
    other: Seq<char>,
)
    ensures
        ({
            let (opened, error) = crate::nearai_stream::field_opened(fields, key, secret);
            &&& other != key ==> field_of(opened, other) == field_of(fields, other)
            &&& crate::nearai_stream::sealed_text(fields, key) matches Some(s) ==> (match v2_outcome(
                s,
                secret,
            ) {
                Ok(plain) => field_of(opened, key) == Some(JsonValue::Str(plain)) && error is None,
                Err(e) => error == Some(e),
            })
            &&& crate::nearai_stream::sealed_text(fields, key) is None ==> opened == fields
                && error is None
        }),
{
    match crate::nearai_stream::sealed_text(fields, key) {
        Some(s) => {
            match v2_outcome(s, secret) {
                Ok(plain) => {
                    law_fields_keep_what_they_are_given(fields, key, JsonValue::Str(plain), other);
                },
                Err(_) => {},
            }
        },
        None => {},
    }
}

/// Every choice of a sealed answer is opened, in its place, and what else the answer and its
/// choices say stays; one that does not open is an error of the whole.
pub proof fn law_sealed_answers_are_opened(
    fields: Seq<(Seq<char>, JsonValue)>,
    choices: Seq<JsonValue>,
    part: Seq<char>,
    secret: Seq<u8>,
    i: int,
    own: Seq<(Seq<char>, JsonValue)>,
    message: Seq<(Seq<char>, JsonValue)>,
    other: Seq<char>,
)
    requires
        field_of(fields, "choices"@) == Some(JsonValue::Arr(choices)),
        0 <= i < choices.len(),
        choices[i] == JsonValue::Obj(own),
        field_of(own, part) == Some(JsonValue::Obj(message)),
    ensures
        ({
            let (opened, error) = answer_opened(JsonValue::Obj(fields), part, secret);
            &&& other != "choices"@ ==> opened.get(other) == field_of(fields, other)
            &&& elements_at(opened, "choices"@) matches Some(out) && {
                &&& out.len() == choices.len()
                &&& out[i].get(part) == Some(JsonValue::Obj(message_opened(message, secret).0))
                &&& other != part ==> out[i].get(other) == field_of(own, other)
            }
            &&& message_opened(message, secret).1 is Some ==> error is Some
        }),
{
    let out = crate::nearai_stream::choices_opened(choices, part, secret);
    law_fields_keep_what_they_are_given(fields, "choices"@, JsonValue::Arr(out), other);
    law_fields_keep_what_they_are_given(
        own,
        part,
        JsonValue::Obj(message_opened(message, secret).0),
        other,
    );
    assert(out[i] == choice_opened(choices[i], part, secret).0);
    if message_opened(message, secret).1 is Some {
        lemma_opening_error(choices, part, secret, i);
    }
}

proof fn lemma_opening_error(choices: Seq<JsonValue>, part: Seq<char>, secret: Seq<u8>, i: int)
    requires
        0 <= i < choices.len(),
        choice_opened(choices[i], part, secret).1 is Some,
    ensures
        opening_error(choices, part, secret) is Some,
    decreases choices.len(),
{
    if i < choices.len() - 1 {
        lemma_opening_error(choices.drop_last(), part, secret, i);
    }
}

/// What becomes of an event of a sealed stream: an error ends it, a client with an enclave of
/// its own gets the event as it is, anybody else gets it opened, and one that does not open
/// ends the stream too.
pub proof fn law_sealed_events_are_passed_on(
    content: Seq<char>,
    event: JsonValue,
    secret: Seq<u8>,
    read: Result<JsonValue, Seq<char>>,
)
    ensures
        event.get("error"@) is Some ==> near_step(
            LineKind::Data(content),
            Ok(event),
            secret,
            true,
        ) is Fail && near_step(LineKind::Data(content), Ok(event), secret, false) is Fail
            && near_step(LineKind::Bare(content), Ok(event), secret, false) is Fail
            && near_answer_outcome(event, secret, false) is Err && near_answer_outcome(
            event,
            secret,
            true,
        ) is Err,
        event.get("error"@) is None ==> {
            &&& near_step(LineKind::Data(content), Ok(event), secret, true) == NearStepKind::Event(
                event,
            )
            &&& near_answer_outcome(event, secret, true) == Ok::<JsonValue, Seq<char>>(event)
            &&& near_answer_outcome(event, secret, false) == Ok::<JsonValue, Seq<char>>(
                answer_opened(event, "message"@, secret).0,
            )
            &&& answer_opened(event, "delta"@, secret).1 is None ==> near_step(
                LineKind::Data(content),
                Ok(event),
                secret,
                false,
            ) == NearStepKind::Event(answer_opened(event, "delta"@, secret).0)
            &&& answer_opened(event, "delta"@, secret).1 matches Some(e) ==> near_step(
                LineKind::Data(content),
                Ok(event),
                secret,
                false,
            ) == NearStepKind::Fail(e)
        },
        near_step(LineKind::Data(content), Err(content), secret, false) == NearStepKind::Fail(
            "Corrupt JSON in stream: "@ + content,
        ),
        near_step(LineKind::Other(content), read, secret, false) == NearStepKind::Fail(
            "Invalid stream protocol line: "@ + content,
        ),
        event.get("error"@) is None ==> near_step(LineKind::Bare(content), Ok(event), secret, false)
            is Skip,
        near_step(LineKind::Bare(content), Err(content), secret, false) is Skip,
        near_step(LineKind::Done, read, secret, false) is Done,
        near_step(LineKind::Nothing, read, secret, false) is Skip,
{
}

/// An instance's stream: the event that opens it gives the key, a piece is read under the key
/// that the stream was opened with, and one without a key ends the stream.
pub proof fn law_instance_streams_are_read(
    key: Option<Seq<u8>>,
    secret: Seq<u8>,
    content: Seq<char>,
    event: JsonValue,
    sealed: Seq<char>,
    said: Seq<char>,
)
    requires
        tight(said),
        !crate::text::has_prefix(said, "data: "@),
    ensures
        text_at(event, "e2e_init"@) == Some(sealed) ==> {
            &&& stream_key_outcome(secret, sealed) matches Ok(k) ==> stream_step_of(
                key,
                secret,
                LineKind::Data(content),
                Some(event),
            ) == (StepKind::Skip, Some(k))
            &&& stream_key_outcome(secret, sealed) is Err ==> stream_step_of(
                key,
                secret,
                LineKind::Data(content),
                Some(event),
            ).0 is Fail
        },
        text_at(event, "e2e_init"@) is None && text_at(event, "e2e"@) == Some(sealed) ==> {
            &&& key is None ==> stream_step_of(key, secret, LineKind::Data(content), Some(event)).0
                is Fail
            &&& key is Some && chunk_outcome(sealed, key->0) == Ok::<Seq<char>, Seq<char>>(said)
                ==> stream_step_of(key, secret, LineKind::Data(content), Some(event)) == (
                StepKind::Event(said),
                key,
            )
            &&& key is Some && chunk_outcome(sealed, key->0) == Ok::<Seq<char>, Seq<char>>(
                "data: "@ + said,
            ) && !unicode_whitespace('d') && said.len() > 0 ==> stream_step_of(
                key,
                secret,
                LineKind::Data(content),
                Some(event),
            ) == (StepKind::Event(said), key)
        },
        text_at(event, "e2e_init"@) is None && text_at(event, "e2e"@) is None && event.get(
            "usage"@,
        ) is Some ==> stream_step_of(key, secret, LineKind::Data(content), Some(event)) == (
            StepKind::Usage,
            key,
        ),
        stream_step_of(key, secret, LineKind::Done, Some(event)) == (StepKind::Done, key),
{
    reveal_strlit("data: ");
    let none = Seq::<char>::empty();
    law_white_space_is_taken_off(none, said, none);
    assert(none + said + none =~= said);
    let marked = "data: "@ + said;
    if said.len() > 0 && !unicode_whitespace('d') {
        assert(marked[0] == 'd' && marked.last() == said.last());
        law_white_space_is_taken_off(none, marked, none);
        assert(none + marked + none =~= marked);
        assert(marked.subrange(0, 6) =~= "data: "@);
        assert(marked.skip(6) =~= said);
    }
}

} // verus!
