//! Putting back, in answers, what was hidden in the question.

use vstd::prelude::*;

use crate::json::elements_at;
use crate::json::field_of;
use crate::json::JsonValue;
use crate::redaction::redacted;
use crate::redaction::stream_step;
use crate::redaction::Redaction;
use crate::redaction_laws::law_stream_replaces_tags;
use crate::redaction_laws::substituted;
use crate::redaction_roundtrip::law_stream_undoes_redact;
use crate::redaction_roundtrip::law_tags_stay_proper;
use crate::redaction_roundtrip::no_tag_in;
use crate::redaction_roundtrip::proper_redaction;
use crate::redaction_roundtrip::tags_proper;
use crate::response::clean_choice;
use crate::response::clean_choices;
use crate::response::clean_message;
use crate::response::filler;
use crate::response::is_usage_only;
use crate::response::padded_line;
use crate::response::stated_tokens;
use crate::response::unredacted;
use crate::response::Unredacting;
use crate::response_laws::lemma_choice_fields;
use crate::response_laws::lemma_message_fields;
use crate::text::byte_len;

verus! {

/// A text that comes as a whole has every tag in it, and in what was kept back before it,
/// replaced by what the tag stands for, and nothing is kept back then.
pub proof fn law_whole_texts_are_restored(u: Unredacting, s: Seq<char>)
    requires
        tags_proper(u.entries),
        u.entries.len() > 0,
    ensures
        unredacted(Some(u), s, true).0 == substituted(u.entries, u.kept + s),
        unredacted(Some(u), s, true).1 matches Some(after) && after.entries == u.entries
            && after.kept.len() == 0,
{
    law_stream_replaces_tags(u.entries, u.kept + s);
}

/// A piece of a stream gives out what is settled and keeps back the rest; together they are
/// what was kept back before and the piece, with the tags replaced.
pub proof fn law_pieces_are_restored(u: Unredacting, s: Seq<char>)
    requires
        tags_proper(u.entries),
        u.entries.len() > 0,
    ensures
        unredacted(Some(u), s, false).1 matches Some(after) && after.entries == u.entries
            && unredacted(Some(u), s, false).0 + after.kept == substituted(
            u.entries,
            u.kept + s,
        ),
        unredacted(Some(u), s, false).0 == stream_step(u.entries, u.kept + s).0,
{
    law_stream_replaces_tags(u.entries, u.kept + s);
}

/// Where nothing was hidden every text is passed on as it is.
pub proof fn law_nothing_is_restored_without_tags(u: Unredacting, s: Seq<char>, end: bool)
    requires
        u.entries.len() == 0,
    ensures
        unredacted(None, s, end) == (s, None::<Unredacting>),
        unredacted(Some(u), s, false) == (s, Some(u)),
        u.kept.len() == 0 ==> unredacted(Some(u), s, true).0 == s,
{
    if u.kept.len() == 0 {
        assert(s + u.kept =~= s);
    }
}

/// The content and the reasoning of a message are restored, the reasoning first, each from
/// where the one before left off; anything but a text stays.
pub proof fn law_messages_are_restored(
    message: Seq<(Seq<char>, JsonValue)>,
    st: Option<Unredacting>,
    end: bool,
    reasoning: Seq<char>,
    content: Seq<char>,
)
    requires
        field_of(message, "content"@) == Some(JsonValue::Str(content)),
    ensures
        ({
            let out = clean_message(message, st, end).0;
            let (shown, between) = unredacted(st, reasoning, end);
            &&& field_of(message, "reasoning"@) is None && field_of(message, "reasoning_content"@)
                is None ==> field_of(out, "content"@) == Some(
                JsonValue::Str(unredacted(st, content, end).0),
            ) && field_of(out, "reasoning_content"@) is None
            &&& field_of(message, "reasoning"@) == Some(JsonValue::Str(reasoning)) || (field_of(
                message,
                "reasoning"@,
            ) is None && field_of(message, "reasoning_content"@) == Some(
                JsonValue::Str(reasoning),
            )) ==> field_of(out, "reasoning_content"@) == Some(JsonValue::Str(shown)) && field_of(
                out,
                "content"@,
            ) == Some(JsonValue::Str(unredacted(between, content, end).0))
        }),
{
    lemma_message_fields(message, st, end, "content"@);
    lemma_message_fields(message, st, end, "reasoning_content"@);
}

/// A message is restored as a whole, and a piece of one as a piece of a stream, each choice
/// from where the one before left off.
pub proof fn law_choices_are_restored(
    choices: Seq<JsonValue>,
    choice: Seq<(Seq<char>, JsonValue)>,
    st: Option<Unredacting>,
    m: Seq<(Seq<char>, JsonValue)>,
)
    ensures
        field_of(choice, "message"@) == Some(JsonValue::Obj(m)) ==> field_of(
            clean_choice(choice, st).0,
            "message"@,
        ) == Some(JsonValue::Obj(clean_message(m, st, true).0)),
        field_of(choice, "message"@) is None && field_of(choice, "delta"@) == Some(
            JsonValue::Obj(m),
        ) ==> field_of(clean_choice(choice, st).0, "delta"@) == Some(
            JsonValue::Obj(clean_message(m, st, false).0),
        ) && clean_choice(choice, st).1 == clean_message(m, st, false).1,
        ({
            let (before, between) = clean_choices(choices, st);
            clean_choices(choices.push(JsonValue::Obj(choice)), st) == (
                before.push(JsonValue::Obj(clean_choice(choice, between).0)),
                clean_choice(choice, between).1,
            )
        }),
        clean_choices(seq![], st).0.len() == 0,
        clean_choices(seq![], st).1 == st,
{
    lemma_choice_fields(choice, st, "message"@);
    lemma_choice_fields(choice, st, "delta"@);
    assert(choices.push(JsonValue::Obj(choice)).drop_last() =~= choices);
    assert(choices.push(JsonValue::Obj(choice)).last() == JsonValue::Obj(choice));
}

/// A provider that says again what it was asked, with everything hidden, is heard by the
/// client as the client said it.
pub proof fn law_echoes_are_heard_in_the_clear(
    r: Redaction,
    message: Seq<(Seq<char>, JsonValue)>,
)
    requires
        r.text.len() < 1_000_000,
        tags_proper(r.entries),
        proper_redaction(r),
        no_tag_in(redacted(r).entries, r.text),
        redacted(r).entries.len() > 0,
        field_of(message, "reasoning"@) is None,
        field_of(message, "reasoning_content"@) is None,
        field_of(message, "content"@) == Some(JsonValue::Str(redacted(r).text)),
    ensures
        field_of(
            clean_message(
                message,
                Some(Unredacting { entries: redacted(r).entries, kept: seq![] }),
                true,
            ).0,
            "content"@,
        ) == Some(JsonValue::Str(r.text)),
{
    let u = Unredacting { entries: redacted(r).entries, kept: seq![] };
    law_tags_stay_proper(r);
    law_stream_undoes_redact(r);
    law_messages_are_restored(message, Some(u), true, seq![], redacted(r).text);
    assert(u.kept + redacted(r).text =~= redacted(r).text);
}

/// What is counted of an answer: the two numbers that its usage states, whatever they are.
pub proof fn law_stated_tokens_are_read(
    answer: JsonValue,
    usage: Seq<(Seq<char>, JsonValue)>,
)
    ensures
        answer.get("usage"@) == Some(JsonValue::Obj(usage)) ==> stated_tokens(answer) == Some(
            (field_of(usage, "prompt_tokens"@), field_of(usage, "completion_tokens"@)),
        ),
        answer.get("usage"@) is None ==> stated_tokens(answer) is None,
        is_usage_only(answer) ==> answer.get("usage"@) is Some,
        answer.get("usage"@) is Some && elements_at(answer, "choices"@) is None ==> is_usage_only(
            answer,
        ),
        elements_at(answer, "choices"@) matches Some(c) ==> (is_usage_only(answer) <==> answer.get(
            "usage"@,
        ) is Some && c.len() == 0),
{
}

/// A line is filled up by a comment of the one letter, to a multiple of 256 bytes.
pub proof fn law_lines_are_filled_up(line: Seq<char>)
    ensures
        exists|n: nat|
            1 <= n <= 256 && padded_line(line) == line + "\n: "@ + #[trigger] filler(n)
                + "\n\n"@,
        forall|n: nat, i: int| 0 <= i < n ==> #[trigger] filler(n)[i] == 'X',
        byte_len(padded_line(line)) % 256 == 0,
{
    let n = crate::response::fill_len(byte_len(line) + 5, 256) as nat;
    crate::text::lemma_byte_len_bound(line);
    assert(padded_line(line) == line + "\n: "@ + filler(n) + "\n\n"@);
    reveal_strlit("\n: ");
    reveal_strlit("\n\n");
    crate::response::lemma_ascii_len("\n: "@);
    crate::response::lemma_ascii_len("\n\n"@);
    crate::response::lemma_ascii_len(filler(n));
    crate::text::lemma_byte_len_concat(line, "\n: "@);
    crate::text::lemma_byte_len_concat(line + "\n: "@, filler(n));
    crate::text::lemma_byte_len_concat(line + "\n: "@ + filler(n), "\n\n"@);
}

} // verus!
