//! What is hidden: every match of every regular expression, and nothing else.

use vstd::prelude::*;
use vstd::utf8::encode_utf8;

use crate::redaction::char_index;
use crate::redaction::found;
use crate::redaction::hidden;
use crate::redaction::noted;
use crate::redaction::pass;
use crate::redaction::redacted;
use crate::redaction::regex_spans_of;
use crate::redaction::spans_fit;
use crate::redaction::tag_text;
use crate::redaction::text_under;
use crate::redaction::Redaction;
use crate::redaction::CC_PATTERN;
use crate::redaction::EMAIL_PATTERN;
use crate::redaction::IP_PATTERN;
use crate::redaction::PHONE_PATTERN;
use crate::redaction::SSN_PATTERN;
use crate::redaction_roundtrip::lemma_decimal;
use crate::redaction_roundtrip::lemma_tag_text_injective;
use crate::redaction_roundtrip::lemma_with_entry;
use crate::redaction_roundtrip::proper_redaction;
use crate::text;
use crate::text::byte_len;
use crate::text::decimal;

verus! {

/// Pieces with others between them; there is one piece more than there are others.
pub open spec fn woven(pieces: Seq<Seq<char>>, between: Seq<Seq<char>>) -> Seq<char>
    decreases between.len(),
{
    if between.len() == 0 {
        pieces[0]
    } else {
        woven(pieces.drop_last(), between.drop_last()) + between.last() + pieces.last()
    }
}

/// The places of the characters at which some ranges of bytes of a text begin and end.
pub open spec fn places(s: Seq<char>, spans: Seq<(usize, usize)>) -> Seq<(int, int)> {
    Seq::new(
        spans.len(),
        |i: int| (char_index(s, spans[i].0 as int), char_index(s, spans[i].1 as int)),
    )
}

/// What stands before, between and behind some ranges of a text.
pub open spec fn outside(s: Seq<char>, cs: Seq<(int, int)>) -> Seq<Seq<char>> {
    Seq::new(
        cs.len() + 1,
        |i: int|
            s.subrange(
                if i == 0 {
                    0
                } else {
                    cs[i - 1].1
                },
                if i == cs.len() {
                    s.len() as int
                } else {
                    cs[i].0
                },
            ),
    )
}

/// What stands in some ranges of a text.
pub open spec fn inside(s: Seq<char>, cs: Seq<(int, int)>) -> Seq<Seq<char>> {
    Seq::new(cs.len(), |i: int| s.subrange(cs[i].0, cs[i].1))
}

/// The first `n` tags of a kind.
pub open spec fn tags(label: Seq<char>, n: nat) -> Seq<Seq<char>> {
    Seq::new(n, |i: int| "["@ + label + "_"@ + decimal((i + 1) as nat) + "]"@)
}

proof fn lemma_woven(s: Seq<char>, cs: Seq<(int, int)>, label: Seq<char>)
    requires
        spans_fit(cs, s.len() as int),
    ensures
        hidden(s, cs, label) == woven(outside(s, cs), tags(label, cs.len())),
        s == woven(outside(s, cs), inside(s, cs)),
    decreases cs.len(),
{
    if cs.len() == 0 {
        assert(outside(s, cs)[0] =~= s);
    } else {
        let front = cs.drop_last();
        let last = cs.last();
        assert(cs[cs.len() - 1] == last);
        let head = s.take(last.0);
        assert(spans_fit(front, head.len() as int)) by {
            assert forall|i: int| 0 <= i < front.len() implies 0 <= (#[trigger] front[i]).0
                <= front[i].1 <= head.len() by {
                assert(front[i] == cs[i]);
                assert(cs[i].1 <= cs[cs.len() - 1].0);
            }
            assert forall|i: int, j: int| 0 <= i < j < front.len() implies (
            #[trigger] front[i]).1 <= (#[trigger] front[j]).0 by {
                assert(cs[i].1 <= cs[j].0);
            }
        }
        lemma_woven(head, front, label);
        let out = outside(s, cs);
        let inn = inside(s, cs);
        assert(out.drop_last() =~= outside(head, front)) by {
            assert forall|i: int| 0 <= i < out.len() - 1 implies out[i] == outside(
                head,
                front,
            )[i] by {
                if i > 0 {
                    assert(cs[i - 1].1 <= cs[i].0);
                }
                if i < front.len() {
                    assert(front[i] == cs[i]);
                    assert(cs[i].0 <= head.len());
                    assert(cs[i].0 <= cs[i].1);
                    assert(cs[i].1 <= cs[cs.len() - 1].0);
                }
                assert(out[i] =~= outside(head, front)[i]);
            }
        }
        assert(inn.drop_last() =~= inside(head, front)) by {
            assert forall|i: int| 0 <= i < inn.len() - 1 implies inn[i] == inside(head, front)[i] by {
                assert(cs[i].1 <= cs[cs.len() - 1].0);
                assert(inn[i] =~= inside(head, front)[i]);
            }
        }
        assert(tags(label, cs.len()).drop_last() =~= tags(label, front.len()));
        assert(out.last() =~= s.skip(last.1));
        assert(head + s.subrange(last.0, last.1) + s.skip(last.1) =~= s);
    }
}

proof fn lemma_noted(
    es: Seq<(Seq<char>, Seq<char>)>,
    s: Seq<char>,
    cs: Seq<(int, int)>,
    label: Seq<char>,
)
    ensures
        forall|i: int|
            0 <= i < cs.len() ==> text_under(
                noted(es, s, cs, label),
                tag_text(label, (i + 1) as nat),
            ) == Some(#[trigger] s.subrange(cs[i].0, cs[i].1)),
        forall|tag: Seq<char>|
            (forall|n: nat| 1 <= n <= cs.len() ==> tag != #[trigger] tag_text(label, n))
                ==> #[trigger] text_under(noted(es, s, cs, label), tag) == text_under(es, tag),
    decreases cs.len(),
{
    if cs.len() > 0 {
        let front = cs.drop_last();
        let last = cs.last();
        let before = noted(es, s, front, label);
        let own = tag_text(label, cs.len());
        let value = s.subrange(last.0, last.1);
        lemma_noted(es, s, front, label);
        assert forall|i: int| 0 <= i < cs.len() implies text_under(
            noted(es, s, cs, label),
            tag_text(label, (i + 1) as nat),
        ) == Some(#[trigger] s.subrange(cs[i].0, cs[i].1)) by {
            let t = tag_text(label, (i + 1) as nat);
            lemma_with_entry(before, own, value, t);
            if i < front.len() {
                if t == own {
                    lemma_tag_text_injective(label, (i + 1) as nat, cs.len());
                }
                assert(front[i] == cs[i]);
                assert(text_under(before, t) == Some(s.subrange(front[i].0, front[i].1)));
            }
        }
        assert forall|tag: Seq<char>|
            (forall|n: nat| 1 <= n <= cs.len() ==> tag != #[trigger] tag_text(
                label,
                n,
            )) implies #[trigger] text_under(noted(es, s, cs, label), tag) == text_under(
            es,
            tag,
        ) by {
            assert(tag != tag_text(label, cs.len()));
            lemma_with_entry(before, own, value, tag);
            assert(text_under(before, tag) == text_under(es, tag));
        }
    }
}

/// Whether one kind of personal data has been hidden: what stands in each range that the
/// regular expression's matches take has been replaced by a tag of the kind, numbered from one,
/// everything else stands as it did, each tag stands for what it replaced, and all other tags
/// stand for what they did.
pub open spec fn hides_matches(
    before: Redaction,
    after: Redaction,
    pattern: Seq<char>,
    group: int,
    label: Seq<char>,
) -> bool {
    let spans = regex_spans_of(pattern, group, before.text);
    let cs = places(before.text, spans);
    let own = tags(label, spans.len());
    &&& before.text == woven(outside(before.text, cs), inside(before.text, cs))
    &&& after.text == woven(outside(before.text, cs), own)
    &&& forall|i: int|
        0 <= i < spans.len() ==> text_under(after.entries, #[trigger] own[i]) == Some(
            before.text.subrange(
                char_index(before.text, spans[i].0 as int),
                char_index(before.text, spans[i].1 as int),
            ),
        )
    &&& forall|tag: Seq<char>|
        !own.contains(tag) ==> #[trigger] text_under(after.entries, tag) == text_under(
            before.entries,
            tag,
        )
}

proof fn lemma_pass_hides(r: Redaction, pattern: Seq<char>, group: int, label: Seq<char>)
    requires
        spans_fit(found(r.text, pattern, group), r.text.len() as int),
    ensures
        hides_matches(r, pass(r, pattern, group, label), pattern, group, label),
{
    let spans = regex_spans_of(pattern, group, r.text);
    let cs = places(r.text, spans);
    assert(cs =~= found(r.text, pattern, group));
    lemma_woven(r.text, cs, label);
    lemma_noted(r.entries, r.text, cs, label);
    let own = tags(label, spans.len());
    let after = pass(r, pattern, group, label);
    assert forall|i: int| 0 <= i < spans.len() implies text_under(
        after.entries,
        #[trigger] own[i],
    ) == Some(
        r.text.subrange(
            char_index(r.text, spans[i].0 as int),
            char_index(r.text, spans[i].1 as int),
        ),
    ) by {
        assert(own[i] == tag_text(label, (i + 1) as nat));
        assert(text_under(after.entries, tag_text(label, (i + 1) as nat)) == Some(
            r.text.subrange(cs[i].0, cs[i].1),
        ));
    }
    assert forall|tag: Seq<char>| !own.contains(tag) implies #[trigger] text_under(
        after.entries,
        tag,
    ) == text_under(r.entries, tag) by {
        assert forall|n: nat| 1 <= n <= cs.len() implies tag != #[trigger] tag_text(label, n) by {
            assert(own[n - 1] == tag_text(label, n));
        }
    }
}

/// Every match of each of the five regular expressions is hidden, and nothing else: one kind
/// after the other, in the text that the kinds before it left, whatever tags stand in it.
pub proof fn law_every_match_is_hidden(r: Redaction)
    requires
        proper_redaction(r),
    ensures
        exists|r1: Redaction, r2: Redaction, r3: Redaction, r4: Redaction|
            {
                &&& #[trigger] hides_matches(r, r1, "(?i)[a-z0-9._%+-]+@[a-z0-9.-]+\\.[a-z]{2,}"@, 0, "EMAIL"@)
                &&& #[trigger] hides_matches(r1, r2, "(?i)\\b(?:\\d{1,3}\\.){3}\\d{1,3}\\b|\\b(?:[0-9a-f]{1,4}:){7}[0-9a-f]{1,4}\\b|\\b(?:[0-9a-f]{1,4}:){1,7}(?::[0-9a-f]{1,4}){1,7}\\b|\\b(?:[0-9a-f]{1,4}:){1,7}:|:(?::[0-9a-f]{1,4}){1,7}\\b"@, 0, "IP_ADDRESS"@)
                &&& #[trigger] hides_matches(r2, r3, "\\b(?:\\d[ -]*?){13,16}\\b"@, 0, "CREDIT_CARD"@)
                &&& #[trigger] hides_matches(r3, r4, "\\b\\d{3}[ -]?\\d{2}[ -]?\\d{4}\\b"@, 0, "SSN"@)
                &&& hides_matches(r4, redacted(r), "(?i)(^|[^a-zA-Z0-9])((?:(?:\\+|00)[\\s\\.\\-]*\\d{1,3}[\\s\\.\\-]*|\\b\\d{1,3}[\\s\\.\\-]+)?\\(?\\d{2,4}\\)?(?:[\\s\\.\\-]*\\d){5,12}(?:[\\s\\.\\-]*(?:ext\\.?|x|extension)[\\s\\.\\-]*\\d{1,5})?)\\b"@, 2, "PHONE"@)
            },
{
    let r1 = pass(r, EMAIL_PATTERN@, 0, "EMAIL"@);
    let r2 = pass(r1, IP_PATTERN@, 0, "IP_ADDRESS"@);
    let r3 = pass(r2, CC_PATTERN@, 0, "CREDIT_CARD"@);
    let r4 = pass(r3, SSN_PATTERN@, 0, "SSN"@);
    lemma_pass_hides(r, EMAIL_PATTERN@, 0, "EMAIL"@);
    lemma_pass_hides(r1, IP_PATTERN@, 0, "IP_ADDRESS"@);
    lemma_pass_hides(r2, CC_PATTERN@, 0, "CREDIT_CARD"@);
    lemma_pass_hides(r3, SSN_PATTERN@, 0, "SSN"@);
    lemma_pass_hides(r4, PHONE_PATTERN@, 2, "PHONE"@);
}

/// A text in which none of the regular expressions matches goes out as it is.
pub proof fn law_plain_texts_stay(r: Redaction)
    requires
        regex_spans_of(EMAIL_PATTERN@, 0, r.text).len() == 0,
        regex_spans_of(IP_PATTERN@, 0, r.text).len() == 0,
        regex_spans_of(CC_PATTERN@, 0, r.text).len() == 0,
        regex_spans_of(SSN_PATTERN@, 0, r.text).len() == 0,
        regex_spans_of(PHONE_PATTERN@, 2, r.text).len() == 0,
    ensures
        redacted(r).text == r.text,
        redacted(r).entries == r.entries,
{
    assert(pass(r, EMAIL_PATTERN@, 0, "EMAIL"@) =~= r);
    assert(pass(r, IP_PATTERN@, 0, "IP_ADDRESS"@) =~= r);
    assert(pass(r, CC_PATTERN@, 0, "CREDIT_CARD"@) =~= r);
    assert(pass(r, SSN_PATTERN@, 0, "SSN"@) =~= r);
    assert(pass(r, PHONE_PATTERN@, 2, "PHONE"@) =~= r);
}

/// A place in bytes where a character begins is the place of that character.
pub proof fn law_byte_places_are_characters(s: Seq<char>, k: int)
    requires
        0 <= k <= s.len(),
    ensures
        char_index(s, encode_utf8(s.take(k)).len() as int) == k,
    decreases s.len(),
{
    text::lemma_byte_len(s.take(k));
    if k > 0 {
        let rest = s.skip(1);
        law_byte_places_are_characters(rest, k - 1);
        text::lemma_byte_len(rest.take(k - 1));
        assert(s.take(k).skip(1) =~= rest.take(k - 1));
        assert(s.take(k)[0] == s[0]);
        text::lemma_byte_len_bound(s.take(k));
    } else {
        assert(byte_len(s.take(k)) == 0);
    }
}

/// A number is written with digits only, at least one, that spell it, and with no more of them
/// than it needs.
pub proof fn law_numbers_are_spelled(n: nat)
    ensures
        decimal(n).len() > 0,
        forall|i: int| 0 <= i < decimal(n).len() ==> '0' <= #[trigger] decimal(n)[i] <= '9',
        text::digits_value(decimal(n)) == n,
        n < 10 ==> decimal(n).len() == 1,
        n > 0 ==> decimal(n)[0] != '0',
        n >= 10 ==> decimal(n).last() as int == '0' as int + n % 10 && decimal(n).len()
            == decimal(n / 10).len() + 1,
    decreases n,
{
    lemma_decimal(n);
    if n >= 10 {
        law_numbers_are_spelled(n / 10);
        assert(decimal(n)[0] == decimal(n / 10)[0]);
    }
}

} // verus!
