//! Hiding personal data in a text behind tags, and putting it back.

use regex::Regex;
use std::sync::Arc;
use vstd::prelude::*;
use vstd::utf8::encode_utf8;

use crate::primitives::zeroize_string;
use crate::redaction_laws::lacks;
use crate::redaction_laws::law_little_is_kept;
use crate::redaction_laws::may_be_kept;
use crate::redaction_laws::whole;
use crate::redaction_roundtrip::law_stream_undoes_redact;
use crate::redaction_roundtrip::law_tags_stay_proper;
use crate::redaction_roundtrip::law_unredact_undoes_redact;
use crate::redaction_roundtrip::lemma_no_bracket_no_tag;
use crate::redaction_roundtrip::no_tag_in;
use crate::redaction_roundtrip::proper_redaction;
use crate::redaction_roundtrip::same_meaning;
use crate::redaction_roundtrip::tags_proper;
use crate::text;
use crate::text::byte_len;
use crate::text::char_width;
use crate::text::chars_of;
use crate::text::find_char;
use crate::text::find_in;
use crate::text::is_ascii_letter;
use crate::text::is_digit;
use crate::text::push_chars;
use crate::text::push_text;
use crate::text::replaced;
use crate::text::string_of;
use crate::text::string_of_all;
use crate::text::text_eq;
use crate::text::width_of;

verus! {

// ---------------------------------------------------------------------------
// What is looked for
// ---------------------------------------------------------------------------

/// The regular expression of e-mail addresses.
pub const EMAIL_PATTERN: &'static str = "(?i)[a-z0-9._%+-]+@[a-z0-9.-]+\\.[a-z]{2,}";

/// The regular expression of IPv4 and IPv6 addresses.
pub const IP_PATTERN: &'static str = "(?i)\\b(?:\\d{1,3}\\.){3}\\d{1,3}\\b|\\b(?:[0-9a-f]{1,4}:){7}[0-9a-f]{1,4}\\b|\\b(?:[0-9a-f]{1,4}:){1,7}(?::[0-9a-f]{1,4}){1,7}\\b|\\b(?:[0-9a-f]{1,4}:){1,7}:|:(?::[0-9a-f]{1,4}){1,7}\\b";

/// The regular expression of credit card numbers.
pub const CC_PATTERN: &'static str = "\\b(?:\\d[ -]*?){13,16}\\b";

/// The regular expression of social security numbers.
pub const SSN_PATTERN: &'static str = "\\b\\d{3}[ -]?\\d{2}[ -]?\\d{4}\\b";

/// The regular expression of telephone numbers; the number is its second group.
pub const PHONE_PATTERN: &'static str = "(?i)(^|[^a-zA-Z0-9])((?:(?:\\+|00)[\\s\\.\\-]*\\d{1,3}[\\s\\.\\-]*|\\b\\d{1,3}[\\s\\.\\-]+)?\\(?\\d{2,4}\\)?(?:[\\s\\.\\-]*\\d){5,12}(?:[\\s\\.\\-]*(?:ext\\.?|x|extension)[\\s\\.\\-]*\\d{1,5})?)\\b";

/// Whether a pattern and a group are among those that the library looks for.
pub open spec fn known_pattern(pattern: Seq<char>, group: int) -> bool {
    ||| pattern == EMAIL_PATTERN@ && group == 0
    ||| pattern == IP_PATTERN@ && group == 0
    ||| pattern == CC_PATTERN@ && group == 0
    ||| pattern == SSN_PATTERN@ && group == 0
    ||| pattern == PHONE_PATTERN@ && group == 2
}

/// What is known of the characters from `a` to `b` of a text, where they are a match: it is
/// not empty and holds no bracket; an IP address has a dot or a colon; the numbers begin with
/// no letter and hold no underscore; a credit card or social security number begins at a
/// boundary of words; and a telephone number has at least seven characters.
pub open spec fn match_proper(pattern: Seq<char>, s: Seq<char>, a: int, b: int) -> bool {
    let m = s.subrange(a, b);
    &&& a < b
    &&& lacks(m, '[') && lacks(m, ']')
    &&& pattern == IP_PATTERN@ ==> m.contains('.') || m.contains(':')
    &&& pattern == CC_PATTERN@ || pattern == SSN_PATTERN@ || pattern == PHONE_PATTERN@
        ==> !is_ascii_letter(s[a]) && lacks(m, '_')
    &&& (pattern == CC_PATTERN@ || pattern == SSN_PATTERN@) && a > 0 ==> s[a - 1] != '_'
        && !is_digit(s[a - 1])
    &&& pattern == PHONE_PATTERN@ ==> m.len() >= 7
}

/// The places, in bytes, that a group takes in the successive matches of a regular
/// expression in a text.
pub uninterp spec fn regex_spans_of(pattern: Seq<char>, group: int, text: Seq<char>) -> Seq<
    (usize, usize),
>;

/// `regex::Regex::captures_iter`: the byte ranges of one group in the successive matches,
/// a function of the arguments. The matches follow one another without overlap. The
/// patterns it is called with compile, and the group takes part in each of their matches;
/// what is claimed of the matched characters is what the patterns spell out.
#[verifier::external_body]
fn regex_spans(pattern: &str, group: usize, text: &str) -> (r: Vec<(usize, usize)>)
    requires
        known_pattern(pattern@, group as int),
    ensures
        r@ == regex_spans_of(pattern@, group as int, text@),
        forall|i: int|
            0 <= i < r@.len() ==> (#[trigger] r@[i]).0 <= r@[i].1 <= encode_utf8(text@).len(),
        forall|i: int, j: int| 0 <= i < j < r@.len() ==> (#[trigger] r@[i]).1 <= (#[trigger] r@[j]).0,
        forall|i: int|
            0 <= i < r@.len() ==> match_proper(
                pattern@,
                text@,
                char_index(text@, (#[trigger] r@[i]).0 as int),
                char_index(text@, r@[i].1 as int),
            ),
{
    let regex = Regex::new(pattern).expect("a pattern that compiles");
    let matches = regex.captures_iter(text).map(|c| c.get(group).expect("a group that takes part"));
    matches.map(|m| (m.start(), m.end())).collect()
}

// ---------------------------------------------------------------------------
// From bytes to characters
// ---------------------------------------------------------------------------

/// The number of characters that begin before the byte at `offset`.
pub open spec fn char_index(s: Seq<char>, offset: int) -> int
    decreases s.len(),
{
    if offset <= 0 || s.len() == 0 {
        0
    } else {
        1 + char_index(s.skip(1), offset - char_width(s[0]))
    }
}

/// The number of characters that begin before the byte at `offset`.
pub(crate) fn index_of_byte(v: &[char], offset: usize) -> (r: usize)
    ensures
        r == char_index(v@, offset as int),
        r <= v@.len(),
{
    let mut left: usize = offset;
    let mut i: usize = 0;
    proof {
        assert(v@.skip(0) =~= v@);
    }
    while left > 0 && i < v.len()
        invariant
            i <= v@.len(),
            char_index(v@, offset as int) == i + char_index(v@.skip(i as int), left as int),
        decreases v@.len() - i,
    {
        let w = width_of(v[i]);
        proof {
            assert(v@.skip(i as int).skip(1) =~= v@.skip(i + 1));
            reveal_with_fuel(char_index, 2);
        }
        left = if w > left {
            0
        } else {
            left - w
        };
        i = i + 1;
    }
    i
}

/// Later bytes lie in the same or later characters.
proof fn lemma_char_index(s: Seq<char>, a: int, b: int)
    requires
        a <= b,
    ensures
        0 <= char_index(s, a) <= char_index(s, b) <= s.len(),
    decreases s.len(),
{
    if s.len() > 0 {
        lemma_char_index(s.skip(1), a - char_width(s[0]), b - char_width(s[0]));
    }
}

// ---------------------------------------------------------------------------
// The hidden texts
// ---------------------------------------------------------------------------

/// A text that was hidden.
#[derive(Clone)]
pub struct Hidden {
    pub text: String,
}

impl Drop for Hidden {
    /// Wipes the text.
    fn drop(&mut self)
        ensures
            final(self).text@ == Seq::<char>::empty(),
        opens_invariants none
        no_unwind
    {
        zeroize_string(&mut self.text);
    }
}

/// The texts that were hidden, each under its tag. No tag stands in it twice. A text is wiped
/// once it is no longer held.
#[derive(Default, Clone)]
pub struct PiiMap {
    pub map: Vec<(String, Hidden)>,
}

/// The tags and the texts that they stand for.
pub open spec fn entries_of(m: Seq<(String, Hidden)>) -> Seq<(Seq<char>, Seq<char>)> {
    m.map_values(|e: (String, Hidden)| (e.0@, e.1.text@))
}

/// The first place, at or after `from`, of a tag.
pub open spec fn tag_index(es: Seq<(Seq<char>, Seq<char>)>, tag: Seq<char>, from: int) -> Option<
    int,
>
    decreases es.len() - from,
{
    if from < 0 || from >= es.len() {
        None
    } else if es[from].0 == tag {
        Some(from)
    } else {
        tag_index(es, tag, from + 1)
    }
}

/// The text that a tag stands for.
pub open spec fn text_under(es: Seq<(Seq<char>, Seq<char>)>, tag: Seq<char>) -> Option<Seq<char>> {
    match tag_index(es, tag, 0) {
        Some(i) => Some(es[i].1),
        None => None,
    }
}

/// The entries once a text is put under a tag, in the place of what stood there.
pub open spec fn with_entry(
    es: Seq<(Seq<char>, Seq<char>)>,
    tag: Seq<char>,
    value: Seq<char>,
) -> Seq<(Seq<char>, Seq<char>)> {
    match tag_index(es, tag, 0) {
        Some(i) => es.update(i, (tag, value)),
        None => es.push((tag, value)),
    }
}

/// Where a tag is found, and that it is nowhere where it is not found.
pub proof fn lemma_tag_index(es: Seq<(Seq<char>, Seq<char>)>, tag: Seq<char>, from: int)
    requires
        0 <= from,
    ensures
        match tag_index(es, tag, from) {
            Some(i) => from <= i < es.len() && es[i].0 == tag && forall|j: int|
                from <= j < i ==> (#[trigger] es[j]).0 != tag,
            None => forall|j: int| from <= j < es.len() ==> (#[trigger] es[j]).0 != tag,
        },
    decreases es.len() - from,
{
    if from < es.len() && es[from].0 != tag {
        lemma_tag_index(es, tag, from + 1);
    }
}

// ---------------------------------------------------------------------------
// Hiding
// ---------------------------------------------------------------------------

/// The tag of the `n`th text of a kind.
pub open spec fn tag_text(label: Seq<char>, n: nat) -> Seq<char> {
    "["@ + label + "_"@ + text::decimal(n) + "]"@
}

/// Byte ranges as ranges of characters.
pub open spec fn char_spans(s: Seq<char>, spans: Seq<(usize, usize)>) -> Seq<(int, int)> {
    spans.map_values(|p: (usize, usize)| (char_index(s, p.0 as int), char_index(s, p.1 as int)))
}

/// Whether ranges of bytes follow one another.
pub open spec fn spans_ordered(spans: Seq<(usize, usize)>) -> bool {
    &&& forall|i: int| 0 <= i < spans.len() ==> (#[trigger] spans[i]).0 <= spans[i].1
    &&& forall|i: int, j: int|
        0 <= i < j < spans.len() ==> (#[trigger] spans[i]).1 <= (#[trigger] spans[j]).0
}

/// Whether ranges lie in a text of length `len`, one after the other.
pub open spec fn spans_fit(cs: Seq<(int, int)>, len: int) -> bool {
    &&& forall|i: int| 0 <= i < cs.len() ==> 0 <= (#[trigger] cs[i]).0 <= cs[i].1 <= len
    &&& forall|i: int, j: int| 0 <= i < j < cs.len() ==> (#[trigger] cs[i]).1 <= (#[trigger] cs[j]).0
}

/// The text with the ranges replaced by tags, numbered from one.
pub open spec fn hidden(s: Seq<char>, cs: Seq<(int, int)>, label: Seq<char>) -> Seq<char>
    decreases cs.len(),
{
    if cs.len() == 0 {
        s
    } else {
        hidden(s.take(cs.last().0), cs.drop_last(), label) + tag_text(label, cs.len()) + s.skip(
            cs.last().1,
        )
    }
}

/// The entries once the text in each range is put under its tag.
pub open spec fn noted(
    es: Seq<(Seq<char>, Seq<char>)>,
    s: Seq<char>,
    cs: Seq<(int, int)>,
    label: Seq<char>,
) -> Seq<(Seq<char>, Seq<char>)>
    decreases cs.len(),
{
    if cs.len() == 0 {
        es
    } else {
        with_entry(
            noted(es, s, cs.drop_last(), label),
            tag_text(label, cs.len()),
            s.subrange(cs.last().0, cs.last().1),
        )
    }
}

/// The ranges of one kind of personal data in a text.
pub open spec fn found(s: Seq<char>, pattern: Seq<char>, group: int) -> Seq<(int, int)> {
    char_spans(s, regex_spans_of(pattern, group, s))
}

/// Whether every range of characters is a proper match.
pub open spec fn all_proper(pattern: Seq<char>, s: Seq<char>, cs: Seq<(int, int)>) -> bool {
    forall|i: int| 0 <= i < cs.len() ==> match_proper(pattern, s, (#[trigger] cs[i]).0, cs[i].1)
}

/// A text on its way, with what has been hidden so far.
#[verifier::ext_equal]
pub struct Redaction {
    pub entries: Seq<(Seq<char>, Seq<char>)>,
    pub text: Seq<char>,
}

/// One kind of personal data hidden.
pub open spec fn pass(
    r: Redaction,
    pattern: Seq<char>,
    group: int,
    label: Seq<char>,
) -> Redaction {
    let cs = found(r.text, pattern, group);
    Redaction { entries: noted(r.entries, r.text, cs, label), text: hidden(r.text, cs, label) }
}

/// Every kind hidden: e-mail addresses, IP addresses, credit card numbers, social
/// security numbers and telephone numbers, in this order.
pub open spec fn redacted(r: Redaction) -> Redaction {
    pass(
        pass(
            pass(
                pass(
                    pass(r, EMAIL_PATTERN@, 0, "EMAIL"@),
                    IP_PATTERN@,
                    0,
                    "IP_ADDRESS"@,
                ),
                CC_PATTERN@,
                0,
                "CREDIT_CARD"@,
            ),
            SSN_PATTERN@,
            0,
            "SSN"@,
        ),
        PHONE_PATTERN@,
        2,
        "PHONE"@,
    )
}

/// The text with every tag replaced by what it stands for, one entry after the other.
pub open spec fn restored(es: Seq<(Seq<char>, Seq<char>)>, s: Seq<char>) -> Seq<char>
    decreases es.len(),
{
    if es.len() == 0 {
        s
    } else {
        replaced(restored(es.drop_last(), s), es.last().0, es.last().1)
    }
}

/// The ranges of characters that a regular expression's matches take lie in the text, one
/// after the other.
proof fn lemma_char_spans_fit(s: Seq<char>, spans: Seq<(usize, usize)>)
    requires
        spans_ordered(spans),
    ensures
        spans_fit(char_spans(s, spans), s.len() as int),
{
    let cs = char_spans(s, spans);
    assert forall|i: int| 0 <= i < cs.len() implies 0 <= (#[trigger] cs[i]).0 <= cs[i].1
        <= s.len() by {
        lemma_char_index(s, spans[i].0 as int, spans[i].1 as int);
    }
    assert forall|i: int, j: int| 0 <= i < j < cs.len() implies (#[trigger] cs[i]).1 <= (
    #[trigger] cs[j]).0 by {
        lemma_char_index(s, spans[i].1 as int, spans[j].0 as int);
    }
}

/// Hiding leaves what follows the last range as it is.
proof fn lemma_hidden_tail(s: Seq<char>, cs: Seq<(int, int)>, label: Seq<char>, from: int, to: int)
    requires
        spans_fit(cs, from),
        0 <= from <= to <= s.len(),
    ensures
        hidden(s.take(to), cs, label) == hidden(s.take(from), cs, label) + s.subrange(from, to),
{
    if cs.len() == 0 {
        assert(s.take(to) =~= s.take(from) + s.subrange(from, to));
    } else {
        let last = cs.last();
        assert(cs[cs.len() - 1] == last);
        assert(s.take(to).take(last.0) =~= s.take(from).take(last.0));
        assert(s.take(to).skip(last.1) =~= s.take(from).skip(last.1) + s.subrange(from, to));
        let head = hidden(s.take(from).take(last.0), cs.drop_last(), label) + tag_text(
            label,
            cs.len(),
        );
        assert(head + (s.take(from).skip(last.1) + s.subrange(from, to)) =~= head + s.take(
            from,
        ).skip(last.1) + s.subrange(from, to));
    }
}

fn make_tag(label: &str, n: u64) -> (r: String)
    ensures
        r@ == tag_text(label@, n as nat),
{
    let number = text::decimal_of(n);
    text::cat5("[", label, "_", number.as_str(), "]")
}

impl PiiMap {
    /// The tags and the texts that they stand for.
    pub open spec fn entries(&self) -> Seq<(Seq<char>, Seq<char>)> {
        entries_of(self.map@)
    }

    /// A map in which nothing is hidden.
    pub fn new() -> (r: Self)
        ensures
            r.entries() == Seq::<(Seq<char>, Seq<char>)>::empty(),
    {
        let map: Vec<(String, Hidden)> = Vec::new();
        proof {
            assert(entries_of(map@) =~= Seq::empty());
        }
        PiiMap { map }
    }

    /// Puts `value` under `tag`, in the place of what stood there.
    fn insert(&mut self, tag: String, value: String)
        ensures
            final(self).entries() == with_entry(old(self).entries(), tag@, value@),
    {
        let ghost es = self.entries();
        let mut i: usize = 0;
        while i < self.map.len()
            invariant
                i <= self.map@.len(),
                es == self.entries(),
                *self == *old(self),
                tag_index(es, tag@, 0) == tag_index(es, tag@, i as int),
            decreases self.map@.len() - i,
        {
            if text_eq(self.map[i].0.as_str(), tag.as_str()) {
                let ghost before = self.map@;
                self.map.set(i, (tag, Hidden { text: value }));
                proof {
                    assert(entries_of(self.map@) =~= es.update(i as int, (tag@, value@)));
                }
                return;
            }
            i = i + 1;
        }
        self.map.push((tag, Hidden { text: value }));
        proof {
            assert(entries_of(self.map@) =~= es.push((tag@, value@)));
        }
    }

    /// The text that stands under `tag`.
    pub fn get(&self, tag: &str) -> (r: Option<&String>)
        ensures
            match r {
                Some(v) => text_under(self.entries(), tag@) == Some(v@),
                None => text_under(self.entries(), tag@) is None,
            },
    {
        let ghost es = self.entries();
        let mut i: usize = 0;
        while i < self.map.len()
            invariant
                i <= self.map@.len(),
                es == self.entries(),
                tag_index(es, tag@, 0) == tag_index(es, tag@, i as int),
            decreases self.map@.len() - i,
        {
            if text_eq(self.map[i].0.as_str(), tag) {
                return Some(&self.map[i].1.text);
            }
            i = i + 1;
        }
        None
    }

    /// Hides the texts in some ranges of bytes, which follow one another, behind tags that
    /// are numbered from one.
    pub fn hide_spans(&mut self, text: &str, spans: &Vec<(usize, usize)>, label: &str) -> (r: String)
        requires
            spans_ordered(spans@),
        ensures
            r@ == hidden(text@, char_spans(text@, spans@), label@),
            final(self).entries() == noted(
                old(self).entries(),
                text@,
                char_spans(text@, spans@),
                label@,
            ),
    {
        let v = chars_of(text);
        let ghost es = self.entries();
        let ghost cs = char_spans(text@, spans@);
        let mut out: Vec<char> = Vec::new();
        let mut end: usize = 0;
        let mut k: usize = 0;
        proof {
            lemma_char_spans_fit(text@, spans@);
            assert(text@.take(0) =~= Seq::<char>::empty());
            assert(cs.take(0).len() == 0);
        }
        while k < spans.len()
            invariant
                v@ == text@,
                cs == char_spans(text@, spans@),
                spans_fit(cs, text@.len() as int),
                k <= spans@.len(),
                end <= v@.len(),
                end == (if k == 0 {
                    0
                } else {
                    cs[k - 1].1
                }),
                out@ == hidden(text@.take(end as int), cs.take(k as int), label@),
                self.entries() == noted(es, text@, cs.take(k as int), label@),
            decreases spans@.len() - k,
        {
            let a = index_of_byte(v.as_slice(), spans[k].0);
            let b = index_of_byte(v.as_slice(), spans[k].1);
            let tag = make_tag(label, k as u64 + 1);
            proof {
                assert(cs[k as int] == (a as int, b as int));
                if k > 0 {
                    assert(cs[k - 1].1 <= cs[k as int].0);
                }
                let done = cs.take(k as int);
                let more = cs.take(k + 1);
                assert(more.drop_last() =~= done);
                assert(more.last() == (a as int, b as int));
                assert(spans_fit(done, end as int)) by {
                    assert forall|i: int| 0 <= i < done.len() implies (#[trigger] done[i]).1
                        <= end by {
                        if i < k - 1 {
                            assert(cs[i].1 <= cs[k - 1].0);
                        }
                        assert(cs[i].1 <= text@.len());
                    }
                }
                lemma_hidden_tail(text@, done, label@, end as int, a as int);
                assert(text@.take(b as int).take(a as int) =~= text@.take(a as int));
                assert(text@.take(b as int).skip(b as int) =~= Seq::<char>::empty());
                let head = hidden(text@.take(a as int), done, label@) + tag@;
                assert(head + Seq::<char>::empty() =~= head);
            }
            push_chars(&mut out, v.as_slice(), end, a);
            push_text(&mut out, tag.as_str());
            let original = string_of(v.as_slice(), a, b);
            self.insert(tag, original);
            end = b;
            k = k + 1;
        }
        proof {
            assert(cs.take(cs.len() as int) =~= cs);
            assert(spans_fit(cs, end as int)) by {
                assert forall|i: int| 0 <= i < cs.len() implies (#[trigger] cs[i]).1 <= end by {
                    if i < cs.len() - 1 {
                        assert(cs[i].1 <= cs[cs.len() - 1].0);
                    }
                }
            }
            lemma_hidden_tail(text@, cs, label@, end as int, text@.len() as int);
            assert(text@.take(text@.len() as int) =~= text@);
        }
        push_chars(&mut out, v.as_slice(), end, v.len());
        string_of_all(out.as_slice())
    }

    /// Hides one kind of personal data.
    fn redact_kind(&mut self, text: &str, pattern: &str, group: usize, label: &str) -> (r: String)
        requires
            known_pattern(pattern@, group as int),
        ensures
            pass(
                (Redaction { entries: old(self).entries(), text: text@ }),
                pattern@,
                group as int,
                label@,
            ) == (Redaction { entries: final(self).entries(), text: r@ }),
            spans_fit(found(text@, pattern@, group as int), text@.len() as int),
            all_proper(pattern@, text@, found(text@, pattern@, group as int)),
    {
        let spans = regex_spans(pattern, group, text);
        proof {
            lemma_char_spans_fit(text@, spans@);
            let cs = char_spans(text@, spans@);
            assert forall|i: int| 0 <= i < cs.len() implies match_proper(
                pattern@,
                text@,
                (#[trigger] cs[i]).0,
                cs[i].1,
            ) by {
                assert(cs[i] == (
                    char_index(text@, spans@[i].0 as int),
                    char_index(text@, spans@[i].1 as int),
                ));
            }
        }
        self.hide_spans(text, &spans, label)
    }

    /// Hides the personal data in a text behind tags, and notes what each tag stands for.
    /// The numbering begins anew with every text. A text of less than a million characters in
    /// which no tag stands already comes back as it was when the tags are replaced, in whatever
    /// order, and when it is streamed.
    pub fn redact(&mut self, text: &str) -> (r: String)
        ensures
            redacted((Redaction { entries: old(self).entries(), text: text@ })) == (Redaction {
                entries: final(self).entries(),
                text: r@,
            }),
            proper_redaction(Redaction { entries: old(self).entries(), text: text@ }),
            tags_proper(old(self).entries()) ==> tags_proper(final(self).entries()),
            text@.len() < 1_000_000 ==> forall|es: Seq<(Seq<char>, Seq<char>)>|
                same_meaning(es, final(self).entries()) && no_tag_in(es, text@)
                    ==> #[trigger] restored(es, r@) == text@,
            text@.len() < 1_000_000 && lacks(text@, '[') ==> forall|
                es: Seq<(Seq<char>, Seq<char>)>,
            |
                same_meaning(es, final(self).entries()) ==> #[trigger] restored(es, r@) == text@,
            text@.len() < 1_000_000 && tags_proper(old(self).entries()) && no_tag_in(
                final(self).entries(),
                text@,
            ) ==> whole(final(self).entries(), r@) == text@,
    {
        let ghost start = Redaction { entries: self.entries(), text: text@ };
        let r1 = self.redact_kind(text, EMAIL_PATTERN, 0, "EMAIL");
        let r2 = self.redact_kind(r1.as_str(), IP_PATTERN, 0, "IP_ADDRESS");
        let r3 = self.redact_kind(r2.as_str(), CC_PATTERN, 0, "CREDIT_CARD");
        let r4 = self.redact_kind(r3.as_str(), SSN_PATTERN, 0, "SSN");
        let r5 = self.redact_kind(r4.as_str(), PHONE_PATTERN, 2, "PHONE");
        proof {
            if tags_proper(start.entries) {
                law_tags_stay_proper(start);
            }
            if text@.len() < 1_000_000 {
                if tags_proper(start.entries) && no_tag_in(self.entries(), text@) {
                    law_stream_undoes_redact(start);
                }
                assert forall|es: Seq<(Seq<char>, Seq<char>)>|
                    same_meaning(es, self.entries()) && no_tag_in(
                        es,
                        text@,
                    ) implies #[trigger] restored(es, r5@) == text@ by {
                    law_unredact_undoes_redact(start, es);
                }
                if lacks(text@, '[') {
                    assert forall|es: Seq<(Seq<char>, Seq<char>)>|
                        same_meaning(es, self.entries()) implies #[trigger] restored(es, r5@)
                        == text@ by {
                        lemma_no_bracket_no_tag(es, text@);
                    }
                }
            }
        }
        r5
    }

    /// Puts the hidden texts back in the place of their tags.
    pub fn unredact(&self, text: &str) -> (r: String)
        ensures
            r@ == restored(self.entries(), text@),
            self.entries().len() == 0 ==> r@ == text@,
    {
        let ghost es = self.entries();
        let mut result = text.to_string();
        let mut i: usize = 0;
        while i < self.map.len()
            invariant
                i <= self.map@.len(),
                es == self.entries(),
                result@ == restored(es.take(i as int), text@),
            decreases self.map@.len() - i,
        {
            proof {
                assert(es.take(i + 1).drop_last() =~= es.take(i as int));
                assert(es.take(i + 1).last() == es[i as int]);
            }
            result = text::replace(
                result.as_str(),
                self.map[i].0.as_str(),
                self.map[i].1.text.as_str(),
            );
            i = i + 1;
        }
        proof {
            assert(es.take(es.len() as int) =~= es);
        }
        result
    }

    /// Wipes the hidden texts and forgets the tags.
    pub fn zeroize(&mut self)
        ensures
            final(self).entries() == Seq::<(Seq<char>, Seq<char>)>::empty(),
    {
        self.map = Vec::new();
        proof {
            assert(entries_of(self.map@) =~= Seq::empty());
        }
    }
}

// ---------------------------------------------------------------------------
// Putting back in a stream
// ---------------------------------------------------------------------------

/// The last place of `c` in `s` from `from` up to but not at `to`.
pub open spec fn last_char(s: Seq<char>, c: char, from: int, to: int) -> Option<int>
    decreases to - from,
{
    if to <= from {
        None
    } else if s[to - 1] == c {
        Some(to - 1)
    } else {
        last_char(s, c, from, to - 1)
    }
}

/// What stands for a bracketed piece of text: the hidden text, or the piece itself.
pub open spec fn tag_meaning(es: Seq<(Seq<char>, Seq<char>)>, tag: Seq<char>) -> Seq<char> {
    match text_under(es, tag) {
        Some(v) => v,
        None => tag,
    }
}

/// What can be given out of buffered text, and what has to be kept because a tag may
/// still be completed. A bracket that more than 30 bytes follow without a closing one
/// begins no tag.
#[verifier::opaque]
pub open spec fn stream_step(es: Seq<(Seq<char>, Seq<char>)>, buffer: Seq<char>) -> (
    Seq<char>,
    Seq<char>,
)
    decreases buffer.len(),
{
    match find_char(buffer, '[', 0) {
        None => (buffer, seq![]),
        Some(open) => if open < 0 || open >= buffer.len() {
            (buffer, seq![])
        } else {
            match find_char(buffer, ']', open) {
                Some(close) => if close < open || close >= buffer.len() {
                    (buffer, seq![])
                } else {
                    let start = match last_char(buffer, '[', open, close) {
                        Some(i) => i,
                        None => open,
                    };
                    let (out, rest) = stream_step(es, buffer.skip(close + 1));
                    (
                        buffer.take(start) + tag_meaning(es, buffer.subrange(start, close + 1))
                            + out,
                        rest,
                    )
                },
                None => if byte_len(buffer.skip(open)) > 30 {
                    let (out, rest) = stream_step(es, buffer.skip(open + 1));
                    (buffer.take(open + 1) + out, rest)
                } else {
                    (buffer.take(open), buffer.skip(open))
                },
            }
        },
    }
}

/// Puts hidden texts back in a text that comes in pieces.
pub struct StreamingUnredactor {
    pub pii_map: Arc<PiiMap>,
    buffer: String,
}

/// Whether the text from `from` on takes more than `limit` bytes.
fn longer_than(v: &[char], from: usize, limit: usize) -> (r: bool)
    requires
        from <= v@.len(),
        limit < 1000,
    ensures
        r == (byte_len(v@.skip(from as int)) > limit),
{
    let mut n: usize = 0;
    let mut i: usize = from;
    proof {
        assert(byte_len(v@.skip(from as int)) >= 0) by {
            text::lemma_byte_len_bound(v@.skip(from as int));
        }
    }
    while i < v.len()
        invariant
            from <= i <= v@.len(),
            n <= limit < 1000,
            byte_len(v@.skip(from as int)) == n + byte_len(v@.skip(i as int)),
        decreases v@.len() - i,
    {
        n = n + width_of(v[i]);
        proof {
            assert(v@.skip(i as int).skip(1) =~= v@.skip(i + 1));
            text::lemma_byte_len_bound(v@.skip(i + 1));
        }
        if n > limit {
            return true;
        }
        i = i + 1;
    }
    false
}

/// The last place of `c` in `v` from `from` up to but not at `to`.
fn find_last(v: &[char], c: char, from: usize, to: usize) -> (r: Option<usize>)
    requires
        from <= to <= v@.len(),
    ensures
        match r {
            Some(i) => last_char(v@, c, from as int, to as int) == Some(i as int) && from <= i < to,
            None => last_char(v@, c, from as int, to as int) is None,
        },
{
    let mut i: usize = to;
    while i > from
        invariant
            from <= i <= to <= v@.len(),
            last_char(v@, c, from as int, to as int) == last_char(v@, c, from as int, i as int),
        decreases i,
    {
        if v[i - 1] == c {
            return Some(i - 1);
        }
        i = i - 1;
    }
    None
}

impl StreamingUnredactor {
    /// The text that is kept because a tag may still be completed.
    pub closed spec fn kept(&self) -> Seq<char> {
        self.buffer@
    }

    /// What the tags stand for.
    pub closed spec fn source(&self) -> Arc<PiiMap> {
        self.pii_map
    }

    /// An unredactor that keeps nothing yet.
    pub fn new(pii_map: Arc<PiiMap>) -> (r: Self)
        ensures
            r.source() == pii_map,
            r.kept() == Seq::<char>::empty(),
            may_be_kept(r.kept()),
    {
        StreamingUnredactor { pii_map, buffer: String::new() }
    }

    /// Takes the next piece and gives out what is certain by now. Where nothing is hidden,
    /// every piece is given out as it is.
    pub fn process_chunk(&mut self, chunk: &str) -> (r: String)
        ensures
            final(self).source() == old(self).source(),
            may_be_kept(old(self).kept()) ==> may_be_kept(final(self).kept()),
            if old(self).source().entries().len() == 0 {
                r@ == chunk@ && final(self).kept() == old(self).kept()
            } else {
                (r@, final(self).kept()) == stream_step(
                    old(self).source().entries(),
                    old(self).kept() + chunk@,
                )
            },
    {
        let ghost es = self.pii_map.entries();
        if self.pii_map.map.len() == 0 {
            return chunk.to_string();
        }
        let mut v: Vec<char> = chars_of(self.buffer.as_str());
        push_text(&mut v, chunk);
        let ghost all = v@;
        proof {
            law_little_is_kept(es, all);
        }
        let mut out: Vec<char> = Vec::new();
        let mut at: usize = 0;
        proof {
            assert(all == self.buffer@ + chunk@);
            assert(all.skip(0) =~= all);
            assert(out@ + stream_step(es, all).0 =~= stream_step(es, all).0);
        }
        let mut more = true;
        while more
            invariant
                v@ == all,
                at <= v@.len(),
                es == self.pii_map.entries(),
                *self == *old(self),
                if more {
                    stream_step(es, all) == (
                        out@ + stream_step(es, all.skip(at as int)).0,
                        stream_step(es, all.skip(at as int)).1,
                    )
                } else {
                    stream_step(es, all) == (out@, all.skip(at as int))
                },
            decreases v@.len() - at, (if more { 1int } else { 0int }),
        {
            let ghost before = out@;
            let len: usize = v.len();
            match find_in(v.as_slice(), '[', at) {
                None => {
                    push_chars(&mut out, v.as_slice(), at, len);
                    proof {
                        lemma_step_plain(es, all, at as int);
                    }
                    at = len;
                    more = false;
                },
                Some(open) => match find_in(v.as_slice(), ']', open) {
                    Some(close) => {
                        let start = match find_last(v.as_slice(), '[', open, close) {
                            Some(i) => i,
                            None => open,
                        };
                        let tag = string_of(v.as_slice(), start, close + 1);
                        push_chars(&mut out, v.as_slice(), at, start);
                        match self.pii_map.get(tag.as_str()) {
                            Some(original) => {
                                push_text(&mut out, original.as_str());
                            },
                            None => {
                                push_text(&mut out, tag.as_str());
                            },
                        }
                        proof {
                            lemma_step_tag(es, all, at as int, open as int, close as int);
                            let rest = stream_step(es, all.skip(close + 1)).0;
                            let head = all.subrange(at as int, start as int);
                            assert(before + (head + tag_meaning(es, tag@) + rest) =~= before + head
                                + tag_meaning(es, tag@) + rest);
                        }
                        at = close + 1;
                    },
                    None => {
                        proof {
                            lemma_step_open(es, all, at as int, open as int);
                        }
                        if longer_than(v.as_slice(), open, 30) {
                            push_chars(&mut out, v.as_slice(), at, open + 1);
                            proof {
                                let rest = stream_step(es, all.skip(open + 1)).0;
                                let head = all.subrange(at as int, open + 1);
                                assert(before + (head + rest) =~= before + head + rest);
                            }
                            at = open + 1;
                        } else {
                            push_chars(&mut out, v.as_slice(), at, open);
                            at = open;
                            more = false;
                        }
                    },
                },
            }
        }
        proof {
            assert(all.subrange(at as int, all.len() as int) =~= all.skip(at as int));
        }
        self.buffer = string_of(v.as_slice(), at, v.len());
        string_of_all(out.as_slice())
    }

    /// Gives out what is still kept.
    pub fn flush(&mut self) -> (r: String)
        ensures
            r@ == old(self).kept(),
            final(self).kept() == Seq::<char>::empty(),
            final(self).source() == old(self).source(),
    {
        let res = self.buffer.clone();
        self.buffer = String::new();
        res
    }
}

/// A text without an opening bracket is given out whole.
pub proof fn lemma_step_plain(es: Seq<(Seq<char>, Seq<char>)>, all: Seq<char>, at: int)
    requires
        0 <= at <= all.len(),
        find_char(all, '[', at) is None,
    ensures
        stream_step(es, all.skip(at)) == (
            all.subrange(at, all.len() as int),
            all.skip(all.len() as int),
        ),
{
    reveal(stream_step);
    text::lemma_find_char_skip(all, '[', at, 0);
    assert(all.subrange(at, all.len() as int) =~= all.skip(at));
    assert(all.skip(all.len() as int) =~= Seq::<char>::empty());
}

/// The place where the bracketed piece that ends at `close` begins.
pub open spec fn tag_start(all: Seq<char>, open: int, close: int) -> int {
    match last_char(all, '[', open, close) {
        Some(i) => i,
        None => open,
    }
}

/// Between the two places of a search backwards, the place found lies.
pub proof fn lemma_last_char(s: Seq<char>, c: char, from: int, to: int)
    requires
        from <= to,
    ensures
        match last_char(s, c, from, to) {
            Some(i) => from <= i < to && s[i] == c && forall|j: int| i < j < to ==> s[j] != c,
            None => forall|j: int| from <= j < to ==> s[j] != c,
        },
    decreases to - from,
{
    if to > from && s[to - 1] != c {
        lemma_last_char(s, c, from, to - 1);
    }
}

/// A bracketed piece is replaced by what it stands for.
pub proof fn lemma_step_tag(
    es: Seq<(Seq<char>, Seq<char>)>,
    all: Seq<char>,
    at: int,
    open: int,
    close: int,
)
    requires
        0 <= at <= all.len(),
        find_char(all, '[', at) == Some(open),
        find_char(all, ']', open) == Some(close),
    ensures
        stream_step(es, all.skip(at)) == (
            all.subrange(at, tag_start(all, open, close)) + tag_meaning(
                es,
                all.subrange(tag_start(all, open, close), close + 1),
            ) + stream_step(es, all.skip(close + 1)).0,
            stream_step(es, all.skip(close + 1)).1,
        ),
{
    reveal(stream_step);
    let tail = all.skip(at);
    let start = tag_start(all, open, close);
    text::lemma_find_char(all, '[', at);
    text::lemma_find_char(all, ']', open);
    text::lemma_find_char_skip(all, '[', at, 0);
    text::lemma_find_char_skip(all, ']', at, open - at);
    lemma_last_char_skip(all, '[', at, open, close);
    lemma_last_char(all, '[', open, close);
    assert(tail.take(start - at) =~= all.subrange(at, start));
    assert(tail.subrange(start - at, close - at + 1) =~= all.subrange(start, close + 1));
    assert(tail.skip(close - at + 1) =~= all.skip(close + 1));
}

/// An opening bracket without a closing one is kept back, or given out where too much
/// follows it.
pub proof fn lemma_step_open(es: Seq<(Seq<char>, Seq<char>)>, all: Seq<char>, at: int, open: int)
    requires
        0 <= at <= all.len(),
        find_char(all, '[', at) == Some(open),
        find_char(all, ']', open) is None,
    ensures
        stream_step(es, all.skip(at)) == (if byte_len(all.skip(open)) > 30 {
            (
                all.subrange(at, open + 1) + stream_step(es, all.skip(open + 1)).0,
                stream_step(es, all.skip(open + 1)).1,
            )
        } else {
            (all.subrange(at, open), all.skip(open))
        }),
{
    reveal(stream_step);
    let tail = all.skip(at);
    text::lemma_find_char(all, '[', at);
    text::lemma_find_char_skip(all, '[', at, 0);
    text::lemma_find_char_skip(all, ']', at, open - at);
    assert(tail.skip(open - at) =~= all.skip(open));
    assert(tail.skip(open - at + 1) =~= all.skip(open + 1));
    assert(tail.take(open - at + 1) =~= all.subrange(at, open + 1));
    assert(tail.take(open - at) =~= all.subrange(at, open));
}

/// Searching backwards in the tail of a text is searching backwards in the text.
proof fn lemma_last_char_skip(s: Seq<char>, c: char, n: int, from: int, to: int)
    requires
        0 <= n <= from <= to <= s.len(),
    ensures
        last_char(s.skip(n), c, from - n, to - n) == (match last_char(s, c, from, to) {
            Some(i) => Some(i - n),
            None => None::<int>,
        }),
    decreases to - from,
{
    if to > from && s[to - 1] != c {
        lemma_last_char_skip(s, c, n, from, to - 1);
    }
}

} // verus!
