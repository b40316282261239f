//! Hiding and putting back: what was hidden comes back as it was.

use vstd::prelude::*;

use crate::redaction::all_proper;
use crate::redaction::found;
use crate::redaction::hidden;
use crate::redaction::lemma_tag_index;
use crate::redaction::match_proper;
use crate::redaction::noted;
use crate::redaction::pass;
use crate::redaction::redacted;
use crate::redaction::restored;
use crate::redaction::spans_fit;
use crate::redaction::tag_index;
use crate::redaction::tag_meaning;
use crate::redaction::tag_text;
use crate::redaction::text_under;
use crate::redaction::with_entry;
use crate::redaction::Redaction;
use crate::redaction::CC_PATTERN;
use crate::redaction::EMAIL_PATTERN;
use crate::redaction::IP_PATTERN;
use crate::redaction::PHONE_PATTERN;
use crate::redaction::SSN_PATTERN;
use crate::redaction_laws::lacks;
use crate::redaction_laws::law_stream_replaces_tags;
use crate::redaction_laws::lemma_front_is_bracketed;
use crate::redaction_laws::lemma_substituted_piece;
use crate::redaction_laws::lemma_substituted_prefix;
use crate::redaction_laws::substituted;
use crate::redaction_laws::tag_in_front;
use crate::redaction_laws::whole;
use crate::text;
use crate::text::find_from;
use crate::text::is_ascii_letter;
use crate::text::occurs_at;
use crate::text::replaced;

verus! {

// ---------------------------------------------------------------------------
// A text in which things are hidden
// ---------------------------------------------------------------------------

/// Plain text, then a tag and what it stands for.
pub struct Piece {
    pub lit: Seq<char>,
    pub tag: Seq<char>,
    pub orig: Seq<char>,
}

/// Whether a text has the form of a tag: brackets round something without brackets.
pub open spec fn bracketed(t: Seq<char>) -> bool {
    &&& t.len() >= 2
    &&& t[0] == '['
    &&& t[t.len() - 1] == ']'
    &&& forall|i: int| 0 < i < t.len() - 1 ==> t[i] != '[' && t[i] != ']'
}

/// Pieces and a last plain text with every tag left in its place.
spec fn tagged(ps: Seq<Piece>, tail: Seq<char>) -> Seq<char>
    decreases ps.len(),
{
    if ps.len() == 0 {
        tail
    } else {
        ps[0].lit + ps[0].tag + tagged(ps.skip(1), tail)
    }
}

/// Pieces and a last plain text with every tag replaced by what it stands for.
spec fn plain(ps: Seq<Piece>, tail: Seq<char>) -> Seq<char>
    decreases ps.len(),
{
    if ps.len() == 0 {
        tail
    } else {
        ps[0].lit + ps[0].orig + plain(ps.skip(1), tail)
    }
}

/// Whether the tags have the form of tags.
spec fn well_made(ps: Seq<Piece>) -> bool {
    forall|i: int| 0 <= i < ps.len() ==> bracketed((#[trigger] ps[i]).tag)
}

/// Whether the tags stand for what the entries say.
spec fn agrees(ps: Seq<Piece>, es: Seq<(Seq<char>, Seq<char>)>) -> bool {
    forall|i: int| 0 <= i < ps.len() ==> text_under(es, (#[trigger] ps[i]).tag) == Some(ps[i].orig)
}

/// Whether a place lies in the plain text, or at an end of it.
spec fn in_plain(ps: Seq<Piece>, a: int) -> bool
    decreases ps.len(),
{
    if ps.len() == 0 {
        true
    } else {
        let n = ps[0].lit.len() as int;
        let m = ps[0].tag.len() as int;
        a <= n || (a >= n + m && in_plain(ps.skip(1), a - n - m))
    }
}

proof fn lemma_join(
    ps: Seq<Piece>,
    t: Seq<char>,
    p: Piece,
    qs: Seq<Piece>,
    tail: Seq<char>,
)
    requires
        p.lit == t,
    ensures
        tagged(ps + seq![p] + qs, tail) == tagged(ps, t) + p.tag + tagged(qs, tail),
        plain(ps + seq![p] + qs, tail) == plain(ps, t) + p.orig + plain(qs, tail),
    decreases ps.len(),
{
    let all = ps + seq![p] + qs;
    if ps.len() == 0 {
        assert(all.skip(1) =~= qs);
        assert(all[0] == p);
    } else {
        lemma_join(ps.skip(1), t, p, qs, tail);
        assert(all.skip(1) =~= ps.skip(1) + seq![p] + qs);
        assert(all[0] == ps[0]);
        assert(tagged(all, tail) =~= tagged(ps, t) + p.tag + tagged(qs, tail));
        assert(plain(all, tail) =~= plain(ps, t) + p.orig + plain(qs, tail));
    }
}

/// A text in pieces, cut in two in the plain text.
proof fn cut(ps: Seq<Piece>, tail: Seq<char>, a: int) -> (r: (
    (Seq<Piece>, Seq<char>),
    (Seq<Piece>, Seq<char>),
))
    requires
        well_made(ps),
        0 <= a <= tagged(ps, tail).len(),
        in_plain(ps, a),
    ensures
        well_made(r.0.0),
        well_made(r.1.0),
        tagged(r.0.0, r.0.1) == tagged(ps, tail).take(a),
        tagged(r.1.0, r.1.1) == tagged(ps, tail).skip(a),
        plain(r.0.0, r.0.1) + plain(r.1.0, r.1.1) == plain(ps, tail),
        r.0.0.len() + r.1.0.len() == ps.len(),
        forall|i: int|
            0 <= i < r.0.0.len() ==> (#[trigger] r.0.0[i]).tag == ps[i].tag && r.0.0[i].orig
                == ps[i].orig,
        forall|i: int|
            0 <= i < r.1.0.len() ==> (#[trigger] r.1.0[i]).tag == ps[i + r.0.0.len()].tag
                && r.1.0[i].orig == ps[i + r.0.0.len()].orig,
        forall|es: Seq<(Seq<char>, Seq<char>)>|
            #![trigger agrees(r.0.0, es)]
            #![trigger agrees(r.1.0, es)]
            agrees(ps, es) ==> agrees(r.0.0, es) && agrees(r.1.0, es),
        forall|c: char|
            #![trigger letters_avoid(r.0.0, c)]
            #![trigger letters_avoid(r.1.0, c)]
            letters_avoid(ps, c) ==> letters_avoid(r.0.0, c) && letters_avoid(r.1.0, c),
    decreases ps.len(),
{
    let s = tagged(ps, tail);
    if ps.len() == 0 {
        assert(tail.take(a) + tail.skip(a) =~= tail);
        ((ps, tail.take(a)), (ps, tail.skip(a)))
    } else {
        let first = ps[0];
        let n = first.lit.len() as int;
        let m = first.tag.len() as int;
        let rest = tagged(ps.skip(1), tail);
        assert(s =~= first.lit + first.tag + rest);
        if a <= n {
            let p = Piece { lit: first.lit.skip(a), ..first };
            let qs = seq![p] + ps.skip(1);
            assert(qs.skip(1) =~= ps.skip(1));
            assert(tagged(qs, tail) =~= s.skip(a));
            assert(first.lit.take(a) =~= s.take(a));
            assert(first.lit.take(a) + plain(qs, tail) =~= plain(ps, tail));
            assert(forall|i: int| 1 <= i < qs.len() ==> #[trigger] qs[i] == ps[i]);
            ((Seq::empty(), first.lit.take(a)), (qs, tail))
        } else {
            let a2 = a - n - m;
            let l = cut(ps.skip(1), tail, a2);
            let front = seq![first] + l.0.0;
            assert(front.skip(1) =~= l.0.0);
            assert(tagged(front, l.0.1) =~= s.take(a));
            assert(s.skip(a) =~= rest.skip(a2));
            assert(plain(front, l.0.1) + plain(l.1.0, l.1.1) =~= plain(ps, tail));
            assert(forall|i: int| 1 <= i < front.len() ==> #[trigger] front[i] == l.0.0[i - 1]);
            assert(forall|i: int| 0 <= i < ps.len() - 1 ==> #[trigger] ps.skip(1)[i] == ps[i + 1]);
            assert forall|es: Seq<(Seq<char>, Seq<char>)>| agrees(ps, es) implies agrees(front, es)
                && agrees(l.1.0, es) by {
                assert(agrees(ps.skip(1), es));
                assert(agrees(l.0.0, es));
            }
            assert forall|c: char| letters_avoid(ps, c) implies letters_avoid(front, c)
                && letters_avoid(l.1.0, c) by {
                assert(letters_avoid(ps.skip(1), c));
                assert(letters_avoid(l.0.0, c));
            }
            ((front, l.0.1), l.1)
        }
    }
}

/// Whether no tag has the letter `c` behind its bracket.
spec fn letters_avoid(ps: Seq<Piece>, c: char) -> bool {
    forall|i: int| 0 <= i < ps.len() ==> (#[trigger] ps[i]).tag[1] != c
}

/// A text in pieces, without its first `n` characters, which hold no opening bracket.
proof fn drop_front(ps: Seq<Piece>, tail: Seq<char>, n: int) -> (r: (Seq<Piece>, Seq<char>))
    requires
        well_made(ps),
        0 <= n <= tagged(ps, tail).len(),
        lacks(tagged(ps, tail).take(n), '['),
    ensures
        well_made(r.0),
        tagged(r.0, r.1) == tagged(ps, tail).skip(n),
        tagged(ps, tail).take(n) + plain(r.0, r.1) == plain(ps, tail),
        r.0.len() == ps.len(),
        forall|i: int|
            0 <= i < ps.len() ==> (#[trigger] r.0[i]).tag == ps[i].tag && r.0[i].orig == ps[i].orig,
{
    let s = tagged(ps, tail);
    if ps.len() == 0 {
        assert(tail.take(n) + tail.skip(n) =~= tail);
        (ps, tail.skip(n))
    } else {
        let first = ps[0];
        let k = first.lit.len() as int;
        assert(s =~= first.lit + first.tag + tagged(ps.skip(1), tail));
        assert(n <= k) by {
            if n > k {
                assert(s.take(n)[k] == '[');
            }
        }
        let p = Piece { lit: first.lit.skip(n), ..first };
        let qs = seq![p] + ps.skip(1);
        assert(qs.skip(1) =~= ps.skip(1));
        assert(tagged(qs, tail) =~= s.skip(n));
        assert(s.take(n) =~= first.lit.take(n));
        assert(s.take(n) + plain(qs, tail) =~= plain(ps, tail));
        (qs, tail)
    }
}

// ---------------------------------------------------------------------------
// Tags
// ---------------------------------------------------------------------------

pub proof fn lemma_decimal(n: nat)
    ensures
        text::decimal(n).len() > 0,
        text::all_digits(text::decimal(n)),
        text::digits_value(text::decimal(n)) == n,
    decreases n,
{
    if n < 10 {
        let d = seq![text::digit_char(n)];
        assert(d.drop_last() =~= Seq::<char>::empty());
        assert(text::digits_value(d.drop_last()) == 0);
        assert(d.last() == text::digit_char(n));
    } else {
        lemma_decimal(n / 10);
        let d = text::decimal(n);
        assert(d.drop_last() =~= text::decimal(n / 10));
    }
}

/// The labels of the tags: letters and underscores.
pub open spec fn label_ok(label: Seq<char>) -> bool {
    &&& label.len() > 0
    &&& forall|i: int|
        0 <= i < label.len() ==> is_ascii_letter(#[trigger] label[i]) || label[i] == '_'
}

/// Whether a tag has a label and a number of at most `m`.
spec fn known_tag(tag: Seq<char>, m: nat) -> bool {
    exists|label: Seq<char>, n: nat| label_ok(label) && n <= m && tag == #[trigger] tag_text(label, n)
}

/// Whether every tag has a label and a number of at most `m`.
spec fn all_known(ps: Seq<Piece>, m: nat) -> bool {
    forall|i: int| 0 <= i < ps.len() ==> known_tag((#[trigger] ps[i]).tag, m)
}

/// Whether no tag stands for nothing.
spec fn origs_there(ps: Seq<Piece>) -> bool {
    forall|i: int| 0 <= i < ps.len() ==> (#[trigger] ps[i]).orig.len() > 0
}

/// There are at most as many tags as characters behind them.
proof fn lemma_few_tags(ps: Seq<Piece>, tail: Seq<char>)
    requires
        origs_there(ps),
    ensures
        ps.len() <= plain(ps, tail).len(),
    decreases ps.len(),
{
    if ps.len() > 0 {
        assert forall|i: int| 0 <= i < ps.skip(1).len() implies (
        #[trigger] ps.skip(1)[i]).orig.len() > 0 by {
            assert(ps.skip(1)[i] == ps[i + 1]);
        }
        lemma_few_tags(ps.skip(1), tail);
    }
}

proof fn lemma_decimal_short(n: nat)
    requires
        n < 1_000_000,
    ensures
        text::decimal(n).len() <= 6,
{
    reveal_with_fuel(text::decimal, 7);
    assert(n / 10 / 10 / 10 / 10 / 10 < 10);
}

/// A proper match of any kind but the first begins in the plain text.
proof fn lemma_match_outside(
    ps: Seq<Piece>,
    tail: Seq<char>,
    m: nat,
    pattern: Seq<char>,
    a: int,
    b: int,
)
    requires
        well_made(ps),
        all_known(ps, m),
        0 <= a <= b <= tagged(ps, tail).len(),
        match_proper(pattern, tagged(ps, tail), a, b),
        ps.len() == 0 || pattern == IP_PATTERN@ || pattern == CC_PATTERN@ || pattern == SSN_PATTERN@
            || (pattern == PHONE_PATTERN@ && m < 1_000_000),
    ensures
        in_plain(ps, a),
    decreases ps.len(),
{
    if ps.len() > 0 {
        let s = tagged(ps, tail);
        let rest = tagged(ps.skip(1), tail);
        let q = ps[0].lit.len() as int;
        let tag = ps[0].tag;
        let k = tag.len() as int;
        assert(s =~= ps[0].lit + tag + rest);
        if a >= q + k {
            let c = a - q - k;
            let d = b - q - k;
            assert(rest.subrange(c, d) =~= s.subrange(a, b));
            assert(rest[c] == s[a]);
            if c > 0 {
                assert(rest[c - 1] == s[a - 1]);
            }
            assert forall|i: int| 0 <= i < ps.skip(1).len() implies #[trigger] ps.skip(1)[i]
                == ps[i + 1] by {}
            lemma_match_outside(ps.skip(1), tail, m, pattern, c, d);
        } else if a > q {
            assert(s.subrange(q, q + k) =~= tag);
            lemma_no_match_in_tag(s, q, tag, m, pattern, a, b);
        }
    }
}

/// How a tag is laid out: a label and a number, with an underscore between them, in brackets.
proof fn lemma_tag_layout(label: Seq<char>, n: nat)
    ensures
        ({
            let tag = tag_text(label, n);
            let d = text::decimal(n);
            &&& tag.len() == label.len() + d.len() + 3
            &&& tag[tag.len() - 1] == ']'
            &&& tag[label.len() as int + 1] == '_'
            &&& forall|j: int| 1 <= j <= label.len() ==> #[trigger] tag[j] == label[j - 1]
            &&& forall|j: int|
                label.len() + 2 <= j < tag.len() - 1 ==> #[trigger] tag[j] == d[j - label.len() - 2]
        }),
{
    reveal_strlit("[");
    reveal_strlit("_");
    reveal_strlit("]");
}

/// No proper match of any kind but the first begins inside a tag.
#[verifier::spinoff_prover]
#[verifier::rlimit(40)]
proof fn lemma_no_match_in_tag(
    s: Seq<char>,
    q: int,
    tag: Seq<char>,
    m: nat,
    pattern: Seq<char>,
    a: int,
    b: int,
)
    requires
        0 <= q < a < q + tag.len() <= s.len(),
        a <= b <= s.len(),
        s.subrange(q, q + tag.len()) == tag,
        bracketed(tag),
        known_tag(tag, m),
        pattern == IP_PATTERN@ || pattern == CC_PATTERN@ || pattern == SSN_PATTERN@ || (pattern
            == PHONE_PATTERN@ && m < 1_000_000),
    ensures
        !match_proper(pattern, s, a, b),
{
    if match_proper(pattern, s, a, b) {
        let found = s.subrange(a, b);
        let close = q + tag.len() - 1;
        let (label, n) = choose|label: Seq<char>, n: nat|
            label_ok(label) && n <= m && tag == #[trigger] tag_text(label, n);
        lemma_tag_layout(label, n);
        lemma_decimal(n);
        let d = text::decimal(n);
        let first_digit = q + label.len() + 2;
        assert forall|j: int| q <= j <= close implies s[j] == tag[j - q] by {
            assert(s.subrange(q, q + tag.len())[j - q] == s[j]);
        }
        if b > close {
            assert(found[close - a] == ']');
        }
        // the match lies between the brackets
        assert forall|j: int| q < j < first_digit implies is_ascii_letter(#[trigger] s[j]) || s[j]
            == '_' by {
            if j < first_digit - 1 {
                assert(tag[j - q] == label[j - q - 1]);
            } else {
                assert(tag[j - q] == '_');
            }
        }
        assert forall|j: int| first_digit <= j < close implies text::is_digit(#[trigger] s[j]) by {
            assert(tag[j - q] == d[j - first_digit]);
            assert(text::is_digit(d[j - first_digit]));
        }
        if pattern == IP_PATTERN@ {
            assert forall|k: int| 0 <= k < found.len() implies found[k] != '.' && found[k] != ':' by {
                assert(found[k] == s[a + k]);
            }
        } else {
            assert(found[0] == s[a]);
            assert(a >= first_digit);
            if pattern == PHONE_PATTERN@ {
                lemma_decimal_short(n);
            } else {
                assert(s[a - 1] == '_' || text::is_digit(s[a - 1])) by {
                    if a == first_digit {
                        assert(s[a - 1] == tag[a - 1 - q]);
                    }
                }
            }
        }
        assert(false);
    }
}

/// A proper match is one in the front part of the text, too, where it lies there.
proof fn lemma_match_in_front(pattern: Seq<char>, s: Seq<char>, a: int, x: int, y: int)
    requires
        match_proper(pattern, s, x, y),
        0 <= x <= y <= a <= s.len(),
    ensures
        match_proper(pattern, s.take(a), x, y),
{
    assert(s.take(a).subrange(x, y) =~= s.subrange(x, y));
    assert(s.take(a)[x] == s[x]);
    if x > 0 {
        assert(s.take(a)[x - 1] == s[x - 1]);
    }
}

proof fn lemma_tag_text(label: Seq<char>, n: nat)
    requires
        label_ok(label),
    ensures
        bracketed(tag_text(label, n)),
        tag_text(label, n)[1] == label[0],
{
    reveal_strlit("[");
    reveal_strlit("_");
    reveal_strlit("]");
    lemma_decimal(n);
    let t = tag_text(label, n);
    let d = text::decimal(n);
    assert forall|i: int| 0 < i < t.len() - 1 implies t[i] != '[' && t[i] != ']' by {
        if i <= label.len() {
            assert(t[i] == label[i - 1]);
        } else if i == label.len() + 1 {
            assert(t[i] == '_');
        } else {
            assert(t[i] == d[i - label.len() - 2]);
            assert(text::is_digit(d[i - label.len() - 2]));
        }
    }
}

pub proof fn lemma_tag_text_injective(label: Seq<char>, m: nat, n: nat)
    requires
        tag_text(label, m) == tag_text(label, n),
    ensures
        m == n,
{
    reveal_strlit("[");
    reveal_strlit("_");
    reveal_strlit("]");
    lemma_decimal(m);
    lemma_decimal(n);
    let t = tag_text(label, m);
    let from = label.len() + 2;
    assert(t.subrange(from as int, t.len() - 1) =~= text::decimal(m));
    assert(t.subrange(from as int, t.len() - 1) =~= text::decimal(n));
}

pub proof fn lemma_with_entry(
    es: Seq<(Seq<char>, Seq<char>)>,
    tag: Seq<char>,
    value: Seq<char>,
    other: Seq<char>,
)
    ensures
        text_under(with_entry(es, tag, value), tag) == Some(value),
        other != tag ==> text_under(with_entry(es, tag, value), other) == text_under(es, other),
{
    let fs = with_entry(es, tag, value);
    lemma_tag_index(es, tag, 0);
    lemma_tag_index(fs, tag, 0);
    lemma_tag_index(es, other, 0);
    lemma_tag_index(fs, other, 0);
    match tag_index(es, tag, 0) {
        Some(i) => {
            assert(fs[i].0 == tag);
            assert(forall|j: int| 0 <= j < fs.len() && j != i ==> fs[j] == es[j]);
        },
        None => {
            assert(fs[es.len() as int].0 == tag);
            assert(forall|j: int| 0 <= j < es.len() ==> fs[j] == es[j]);
        },
    }
    if other != tag {
        match tag_index(fs, other, 0) {
            Some(k) => {
                assert(es[k] == fs[k]);
                let j = tag_index(es, other, 0)->0;
                assert(fs[j].0 == es[j].0);
            },
            None => {
                if tag_index(es, other, 0) is Some {
                    let j = tag_index(es, other, 0)->0;
                    assert(fs[j].0 == es[j].0);
                }
            },
        }
    }
}

proof fn lemma_noted_other(
    es: Seq<(Seq<char>, Seq<char>)>,
    s: Seq<char>,
    cs: Seq<(int, int)>,
    label: Seq<char>,
    other: Seq<char>,
)
    requires
        label_ok(label),
        other[1] != label[0],
    ensures
        text_under(noted(es, s, cs, label), other) == text_under(es, other),
    decreases cs.len(),
{
    if cs.len() > 0 {
        lemma_noted_other(es, s, cs.drop_last(), label, other);
        lemma_tag_text(label, cs.len());
        lemma_with_entry(
            noted(es, s, cs.drop_last(), label),
            tag_text(label, cs.len()),
            s.subrange(cs.last().0, cs.last().1),
            other,
        );
    }
}

proof fn lemma_noted_take(
    es: Seq<(Seq<char>, Seq<char>)>,
    s: Seq<char>,
    cs: Seq<(int, int)>,
    label: Seq<char>,
    a: int,
)
    requires
        spans_fit(cs, a),
        0 <= a <= s.len(),
    ensures
        noted(es, s.take(a), cs, label) == noted(es, s, cs, label),
    decreases cs.len(),
{
    if cs.len() > 0 {
        let last = cs[cs.len() - 1];
        assert(spans_fit(cs.drop_last(), a));
        lemma_noted_take(es, s, cs.drop_last(), label, a);
        assert(s.take(a).subrange(last.0, last.1) =~= s.subrange(last.0, last.1));
    }
}

// ---------------------------------------------------------------------------
// Hiding keeps the text behind the tags
// ---------------------------------------------------------------------------

/// Whether a tag is one of the first `n` of a kind.
spec fn numbered(tag: Seq<char>, label: Seq<char>, n: nat) -> bool {
    exists|k: nat| k <= n && tag == #[trigger] tag_text(label, k)
}

/// Hiding the matches in a text in pieces gives a text in pieces that stands for the same.
proof fn pieces_after(
    ps: Seq<Piece>,
    tail: Seq<char>,
    es: Seq<(Seq<char>, Seq<char>)>,
    cs: Seq<(int, int)>,
    label: Seq<char>,
    pattern: Seq<char>,
    limit: nat,
) -> (r: (Seq<Piece>, Seq<char>))
    requires
        well_made(ps),
        agrees(ps, es),
        label_ok(label),
        letters_avoid(ps, label[0]),
        spans_fit(cs, tagged(ps, tail).len() as int),
        all_proper(pattern, tagged(ps, tail), cs),
        all_known(ps, limit),
        ps.len() == 0 || pattern == IP_PATTERN@ || pattern == CC_PATTERN@ || pattern == SSN_PATTERN@
            || (pattern == PHONE_PATTERN@ && limit < 1_000_000),
    ensures
        well_made(r.0),
        tagged(r.0, r.1) == hidden(tagged(ps, tail), cs, label),
        plain(r.0, r.1) == plain(ps, tail),
        agrees(r.0, noted(es, tagged(ps, tail), cs, label)),
        forall|i: int|
            0 <= i < r.0.len() && (#[trigger] r.0[i]).tag[1] == label[0] ==> numbered(
                r.0[i].tag,
                label,
                cs.len(),
            ),
        forall|c: char|
            c != label[0] && letters_avoid(ps, c) ==> #[trigger] letters_avoid(r.0, c),
        r.0.len() == ps.len() + cs.len(),
        forall|m: nat| all_known(ps, m) && cs.len() <= m ==> #[trigger] all_known(r.0, m),
        origs_there(ps) && (forall|i: int| 0 <= i < cs.len() ==> (#[trigger] cs[i]).0 < cs[i].1)
            ==> origs_there(r.0),
    decreases cs.len(),
{
    let s = tagged(ps, tail);
    if cs.len() == 0 {
        (ps, tail)
    } else {
        let n = cs.len();
        let (a, b) = cs[n - 1];
        let before = cs.drop_last();
        assert(match_proper(pattern, s, cs[n - 1].0, cs[n - 1].1));
        lemma_match_outside(ps, tail, limit, pattern, a, b);
        let l = cut(ps, tail, a);
        let front = l.0;
        let back = l.1;
        assert(agrees(front.0, es) && agrees(back.0, es));
        assert(letters_avoid(front.0, label[0]) && letters_avoid(back.0, label[0]));
        assert(s.skip(a).take(b - a) =~= s.subrange(a, b));
        let m = drop_front(back.0, back.1, b - a);
        assert(s.skip(a).skip(b - a) =~= s.skip(b));
        // the ranges before the last lie in the front part
        assert(spans_fit(before, a)) by {
            assert forall|i: int| 0 <= i < before.len() implies 0 <= (#[trigger] before[i]).0
                <= before[i].1 <= a by {
                assert(cs[i].1 <= cs[n - 1].0);
            }
        }
        assert(all_proper(pattern, s.take(a), before)) by {
            assert forall|i: int| 0 <= i < before.len() implies match_proper(
                pattern,
                s.take(a),
                (#[trigger] before[i]).0,
                before[i].1,
            ) by {
                assert(match_proper(pattern, s, cs[i].0, cs[i].1));
                assert(cs[i].1 <= cs[n - 1].0);
                lemma_match_in_front(pattern, s, a, cs[i].0, cs[i].1);
            }
        }
        assert(all_known(front.0, limit)) by {
            assert forall|i: int| 0 <= i < front.0.len() implies known_tag(
                (#[trigger] front.0[i]).tag,
                limit,
            ) by {
                assert(known_tag(ps[i].tag, limit));
            }
        }
        let rec = pieces_after(front.0, front.1, es, before, label, pattern, limit);
        let tag = tag_text(label, n);
        let piece = Piece { lit: rec.1, tag, orig: s.subrange(a, b) };
        let qs = rec.0 + seq![piece] + m.0;
        lemma_tag_text(label, n);
        lemma_join(rec.0, rec.1, piece, m.0, m.1);
        lemma_noted_take(es, s, before, label, a);
        let old_es = noted(es, s, before, label);
        let new_es = noted(es, s, cs, label);
        assert(well_made(qs)) by {
            assert forall|i: int| 0 <= i < qs.len() implies bracketed((#[trigger] qs[i]).tag) by {
                if i < rec.0.len() {
                    assert(qs[i] == rec.0[i]);
                } else if i > rec.0.len() {
                    assert(qs[i] == m.0[i - rec.0.len() - 1]);
                }
            }
        }
        assert(plain(qs, m.1) == plain(ps, tail)) by {
            assert(plain(front.0, front.1) + s.subrange(a, b) + plain(m.0, m.1) =~= plain(
                front.0,
                front.1,
            ) + (s.subrange(a, b) + plain(m.0, m.1)));
        }
        assert forall|i: int| 0 <= i < qs.len() implies text_under(new_es, (#[trigger] qs[i]).tag)
            == Some(qs[i].orig) by {
            lemma_with_entry(old_es, tag, s.subrange(a, b), qs[i].tag);
            if i < rec.0.len() {
                assert(qs[i] == rec.0[i]);
                if qs[i].tag == tag {
                    assert(numbered(qs[i].tag, label, before.len()));
                    let k = choose|k: nat|
                        k <= before.len() && qs[i].tag == #[trigger] tag_text(label, k);
                    lemma_tag_text_injective(label, k, n);
                }
            } else if i > rec.0.len() {
                let j = i - rec.0.len() - 1;
                assert(qs[i] == m.0[j]);
                assert(m.0[j].tag == back.0[j].tag);
                assert(back.0[j].tag[1] != label[0]);
                lemma_noted_other(es, s, before, label, qs[i].tag);
            }
        }
        assert forall|i: int|
            0 <= i < qs.len() && (#[trigger] qs[i]).tag[1] == label[0] implies numbered(
            qs[i].tag,
            label,
            n,
        ) by {
            if i < rec.0.len() {
                assert(qs[i] == rec.0[i]);
                let k = choose|k: nat|
                    k <= before.len() && qs[i].tag == #[trigger] tag_text(label, k);
                assert(qs[i].tag == tag_text(label, k));
            } else if i > rec.0.len() {
                let j = i - rec.0.len() - 1;
                assert(qs[i] == m.0[j]);
                assert(m.0[j].tag == back.0[j].tag);
            }
        }
        assert forall|c: char|
            c != label[0] && letters_avoid(ps, c) implies #[trigger] letters_avoid(qs, c) by {
            assert(letters_avoid(front.0, c) && letters_avoid(back.0, c));
            assert(letters_avoid(rec.0, c));
            assert forall|i: int| 0 <= i < qs.len() implies (#[trigger] qs[i]).tag[1] != c by {
                if i < rec.0.len() {
                    assert(qs[i] == rec.0[i]);
                } else if i > rec.0.len() {
                    let j = i - rec.0.len() - 1;
                    assert(qs[i] == m.0[j]);
                    assert(m.0[j].tag == back.0[j].tag);
                }
            }
        }
        assert forall|k: nat| all_known(ps, k) && cs.len() <= k implies #[trigger] all_known(
            qs,
            k,
        ) by {
            assert(all_known(front.0, k)) by {
                assert forall|i: int| 0 <= i < front.0.len() implies known_tag(
                    (#[trigger] front.0[i]).tag,
                    k,
                ) by {
                    assert(known_tag(ps[i].tag, k));
                }
            }
            assert(all_known(rec.0, k));
            assert forall|i: int| 0 <= i < qs.len() implies known_tag((#[trigger] qs[i]).tag, k) by {
                if i < rec.0.len() {
                    assert(qs[i] == rec.0[i]);
                } else if i > rec.0.len() {
                    let j = i - rec.0.len() - 1;
                    assert(qs[i] == m.0[j]);
                    assert(m.0[j].tag == back.0[j].tag);
                    assert(back.0[j].tag == ps[j + front.0.len()].tag);
                    assert(known_tag(ps[j + front.0.len()].tag, k));
                } else {
                    assert(qs[i].tag == tag_text(label, n));
                }
            }
        }
        if origs_there(ps) && (forall|i: int| 0 <= i < cs.len() ==> (#[trigger] cs[i]).0 < cs[i].1) {
            assert(origs_there(front.0)) by {
                assert forall|i: int| 0 <= i < front.0.len() implies (
                #[trigger] front.0[i]).orig.len() > 0 by {
                    assert(ps[i].orig.len() > 0);
                }
            }
            assert forall|i: int| 0 <= i < before.len() implies (#[trigger] before[i]).0
                < before[i].1 by {
                assert(before[i] == cs[i]);
            }
            assert(cs[n - 1].0 < cs[n - 1].1);
            assert forall|i: int| 0 <= i < qs.len() implies (#[trigger] qs[i]).orig.len() > 0 by {
                if i < rec.0.len() {
                    assert(qs[i] == rec.0[i]);
                } else if i > rec.0.len() {
                    let j = i - rec.0.len() - 1;
                    assert(qs[i] == m.0[j]);
                    assert(m.0[j].orig == back.0[j].orig);
                    assert(ps[j + front.0.len()].orig.len() > 0);
                }
            }
        }
        (qs, m.1)
    }
}

// ---------------------------------------------------------------------------
// Putting back
// ---------------------------------------------------------------------------

/// Whether every entry's tag has the form of a tag, and none stands there twice.
pub open spec fn tags_proper(es: Seq<(Seq<char>, Seq<char>)>) -> bool {
    &&& forall|i: int| 0 <= i < es.len() ==> bracketed((#[trigger] es[i]).0)
    &&& forall|i: int, j: int|
        0 <= i < j < es.len() ==> (#[trigger] es[i]).0 != (#[trigger] es[j]).0
}

/// Text in which nothing to be replaced begins is left as it is.
proof fn lemma_replaced_prefix(p: Seq<char>, s: Seq<char>, key: Seq<char>, value: Seq<char>)
    requires
        key.len() > 0,
        forall|i: int| 0 <= i < p.len() ==> !#[trigger] occurs_at(p + s, key, i),
    ensures
        replaced(p + s, key, value) == p + replaced(s, key, value),
{
    let all = p + s;
    let n = p.len() as int;
    assert(all.skip(n) =~= s);
    text::lemma_find_from(all, key, 0);
    text::lemma_find_from(all, key, n);
    text::lemma_find_from_skip(all, key, n, 0);
    match find_from(all, key, 0) {
        Some(i) => {
            assert(i >= n);
            assert(find_from(all, key, n) == Some(i)) by {
                text::lemma_find_from(all, key, n);
            }
            assert(all.take(i) =~= p + s.take(i - n));
            assert(all.skip(i + key.len()) =~= s.skip(i - n + key.len()));
            let rest = replaced(s.skip(i - n + key.len()), key, value);
            assert(p + s.take(i - n) + value + rest =~= p + (s.take(i - n) + value + rest));
        },
        None => {},
    }
}

/// A tag stands at the beginning of another only where they are the same.
proof fn lemma_tags_differ(tag: Seq<char>, rest: Seq<char>, key: Seq<char>)
    requires
        bracketed(tag),
        bracketed(key),
        tag != key,
    ensures
        forall|i: int| 0 <= i < tag.len() ==> !#[trigger] occurs_at(tag + rest, key, i),
{
    let all = tag + rest;
    assert forall|i: int| 0 <= i < tag.len() implies !#[trigger] occurs_at(all, key, i) by {
        if occurs_at(all, key, i) {
            let sub = all.subrange(i, i + key.len());
            assert(sub[0] == all[i]);
            assert(all[i] == tag[i]);
            assert(i == 0);
            if key.len() < tag.len() {
                assert(sub[key.len() - 1] == tag[key.len() - 1]);
            } else if key.len() > tag.len() {
                assert(sub[tag.len() - 1] == all[tag.len() - 1]);
                assert(key[tag.len() - 1] == ']');
            } else {
                assert(sub =~= tag);
            }
        }
    }
}

/// Whether a text occurs nowhere in another.
pub open spec fn occurs_nowhere(s: Seq<char>, key: Seq<char>) -> bool {
    forall|i: int| !#[trigger] occurs_at(s, key, i)
}

/// Whether no tag of some entries stands in a text.
pub open spec fn no_tag_in(es: Seq<(Seq<char>, Seq<char>)>, s: Seq<char>) -> bool {
    forall|i: int| 0 <= i < es.len() ==> occurs_nowhere(s, (#[trigger] es[i]).0)
}

/// What stands in no text stands in no part of it.
proof fn lemma_nowhere_in_part(p: Seq<char>, t: Seq<char>, q: Seq<char>, key: Seq<char>)
    requires
        occurs_nowhere(p + t + q, key),
    ensures
        occurs_nowhere(t, key),
{
    assert forall|i: int| !#[trigger] occurs_at(t, key, i) by {
        if occurs_at(t, key, i) {
            let j = i + p.len();
            assert((p + t + q).subrange(j, j + key.len()) =~= t.subrange(i, i + key.len()));
            assert(occurs_at(p + t + q, key, j));
        }
    }
}

/// A tag does not begin in plain text in which it does not stand, where nothing or an opening
/// bracket follows.
proof fn lemma_no_tag_begins(p: Seq<char>, rest: Seq<char>, key: Seq<char>)
    requires
        occurs_nowhere(p, key),
        bracketed(key),
        rest.len() > 0 ==> rest[0] == '[',
    ensures
        forall|i: int| 0 <= i < p.len() ==> !#[trigger] occurs_at(p + rest, key, i),
{
    let all = p + rest;
    assert forall|i: int| 0 <= i < p.len() implies !#[trigger] occurs_at(all, key, i) by {
        if occurs_at(all, key, i) {
            let sub = all.subrange(i, i + key.len());
            if i + key.len() > p.len() {
                assert(sub[p.len() - i] == all[p.len() as int]);
                assert(all[p.len() as int] == rest[0]);
            }
            assert(p.subrange(i, i + key.len()) =~= sub);
            assert(occurs_at(p, key, i));
        }
    }
}

/// Whether every piece is among some others, and its tag is not `key`.
spec fn left_of(qs: Seq<Piece>, ps: Seq<Piece>, key: Seq<char>) -> bool {
    forall|i: int|
        0 <= i < qs.len() ==> (#[trigger] qs[i]).tag != key && exists|j: int|
            0 <= j < ps.len() && (#[trigger] ps[j]).tag == qs[i].tag && ps[j].orig == qs[i].orig
}

/// Replacing one tag by what it stands for leaves a text in pieces without it.
proof fn without_tag(ps: Seq<Piece>, tail: Seq<char>, key: Seq<char>, value: Seq<char>) -> (r: (
    Seq<Piece>,
    Seq<char>,
))
    requires
        well_made(ps),
        bracketed(key),
        occurs_nowhere(plain(ps, tail), key),
        forall|i: int| 0 <= i < ps.len() && (#[trigger] ps[i]).tag == key ==> ps[i].orig == value,
    ensures
        well_made(r.0),
        tagged(r.0, r.1) == replaced(tagged(ps, tail), key, value),
        plain(r.0, r.1) == plain(ps, tail),
        left_of(r.0, ps, key),
    decreases ps.len(),
{
    let none = Seq::<char>::empty();
    let s = tagged(ps, tail);
    if ps.len() == 0 {
        lemma_no_tag_begins(tail, none, key);
        lemma_replaced_prefix(tail, none, key, value);
        assert(tail + none =~= tail);
        text::lemma_find_from(none, key, 0);
        assert(replaced(none, key, value) =~= none);
        (ps, tail)
    } else {
        let first = ps[0];
        let more = ps.skip(1);
        let rest = tagged(more, tail);
        assert forall|i: int| 0 <= i < more.len() implies #[trigger] more[i] == ps[i + 1] by {}
        assert(plain(ps, tail) =~= first.lit + first.orig + plain(more, tail) + none);
        lemma_nowhere_in_part(first.lit + first.orig, plain(more, tail), none, key);
        assert(plain(ps, tail) =~= none + first.lit + (first.orig + plain(more, tail)));
        lemma_nowhere_in_part(none, first.lit, first.orig + plain(more, tail), key);
        let t = without_tag(more, tail, key, value);
        let behind = first.tag + rest;
        assert(s =~= first.lit + behind);
        assert(behind[0] == '[');
        lemma_no_tag_begins(first.lit, behind, key);
        lemma_replaced_prefix(first.lit, behind, key, value);
        if first.tag == key {
            assert(behind.subrange(0, key.len() as int) =~= key);
            assert(occurs_at(behind, key, 0));
            assert(find_from(behind, key, 0) == Some(0int));
            assert(behind.take(0) =~= none);
            assert(behind.skip(key.len() as int) =~= rest);
            let shown = first.lit + value;
            assert(replaced(s, key, value) =~= shown + replaced(rest, key, value));
            let joined = lit_in_front(shown, t.0, t.1);
            assert(plain(joined.0, joined.1) =~= plain(ps, tail));
            assert forall|i: int| 0 <= i < joined.0.len() implies (#[trigger] joined.0[i]).tag
                != key && exists|j: int|
                0 <= j < ps.len() && (#[trigger] ps[j]).tag == joined.0[i].tag && ps[j].orig
                    == joined.0[i].orig by {
                assert(t.0[i].tag != key);
                let j = choose|j: int|
                    0 <= j < more.len() && (#[trigger] more[j]).tag == t.0[i].tag && more[j].orig
                        == t.0[i].orig;
                assert(ps[j + 1].tag == joined.0[i].tag);
            }
            joined
        } else {
            lemma_tags_differ(first.tag, rest, key);
            lemma_replaced_prefix(first.tag, rest, key, value);
            let qs = seq![first] + t.0;
            assert(qs.skip(1) =~= t.0);
            assert(tagged(qs, t.1) =~= replaced(s, key, value));
            assert forall|i: int| 0 <= i < qs.len() implies (#[trigger] qs[i]).tag != key
                && exists|j: int|
                0 <= j < ps.len() && (#[trigger] ps[j]).tag == qs[i].tag && ps[j].orig
                    == qs[i].orig by {
                if i == 0 {
                    assert(ps[0].tag == qs[0].tag);
                } else {
                    assert(qs[i] == t.0[i - 1]);
                    let j = choose|j: int|
                        0 <= j < more.len() && (#[trigger] more[j]).tag == t.0[i - 1].tag
                            && more[j].orig == t.0[i - 1].orig;
                    assert(ps[j + 1].tag == qs[i].tag);
                }
            }
            (qs, t.1)
        }
    }
}

/// A text in pieces with more plain text in front.
proof fn lit_in_front(lit: Seq<char>, ps: Seq<Piece>, tail: Seq<char>) -> (r: (
    Seq<Piece>,
    Seq<char>,
))
    requires
        well_made(ps),
    ensures
        well_made(r.0),
        tagged(r.0, r.1) == lit + tagged(ps, tail),
        plain(r.0, r.1) == lit + plain(ps, tail),
        r.0.len() == ps.len(),
        forall|i: int|
            0 <= i < ps.len() ==> (#[trigger] r.0[i]).tag == ps[i].tag && r.0[i].orig == ps[i].orig,
{
    if ps.len() == 0 {
        (ps, lit + tail)
    } else {
        let p = Piece { lit: lit + ps[0].lit, ..ps[0] };
        let qs = seq![p] + ps.skip(1);
        assert(qs.skip(1) =~= ps.skip(1));
        assert(tagged(qs, tail) =~= lit + tagged(ps, tail));
        assert(plain(qs, tail) =~= lit + plain(ps, tail));
        (qs, tail)
    }
}

/// Whether every tag stands among the entries from `n` on, for the same.
spec fn among(ps: Seq<Piece>, es: Seq<(Seq<char>, Seq<char>)>, n: int) -> bool {
    forall|i: int|
        0 <= i < ps.len() ==> exists|j: int|
            n <= j < es.len() && (#[trigger] es[j]).0 == (#[trigger] ps[i]).tag && es[j].1
                == ps[i].orig
}

/// Replacing the tags of the first `n` entries leaves a text in pieces with the others.
proof fn restored_pieces(
    ps: Seq<Piece>,
    tail: Seq<char>,
    es: Seq<(Seq<char>, Seq<char>)>,
    n: int,
) -> (r: (Seq<Piece>, Seq<char>))
    requires
        well_made(ps),
        among(ps, es, 0),
        tags_proper(es),
        no_tag_in(es, plain(ps, tail)),
        0 <= n <= es.len(),
    ensures
        well_made(r.0),
        tagged(r.0, r.1) == restored(es.take(n), tagged(ps, tail)),
        plain(r.0, r.1) == plain(ps, tail),
        among(r.0, es, n),
    decreases n,
{
    if n == 0 {
        assert(es.take(0).len() == 0);
        (ps, tail)
    } else {
        let t = restored_pieces(ps, tail, es, n - 1);
        assert(es.take(n).drop_last() =~= es.take(n - 1));
        assert(es.take(n).last() == es[n - 1]);
        let (key, value) = es[n - 1];
        assert(bracketed(es[n - 1].0));
        assert(occurs_nowhere(plain(ps, tail), es[n - 1].0));
        assert forall|i: int| 0 <= i < t.0.len() && (#[trigger] t.0[i]).tag == key implies t.0[i].orig
            == value by {
            let j = choose|j: int|
                n - 1 <= j < es.len() && (#[trigger] es[j]).0 == t.0[i].tag && es[j].1 == t.0[i].orig;
            assert(es[j].0 == es[n - 1].0);
            assert(j == n - 1);
        }
        let u = without_tag(t.0, t.1, key, value);
        assert forall|i: int| 0 <= i < u.0.len() implies exists|j: int|
            n <= j < es.len() && (#[trigger] es[j]).0 == (#[trigger] u.0[i]).tag && es[j].1
                == u.0[i].orig by {
            let k = choose|k: int|
                0 <= k < t.0.len() && (#[trigger] t.0[k]).tag == u.0[i].tag && t.0[k].orig
                    == u.0[i].orig;
            let j = choose|j: int|
                n - 1 <= j < es.len() && (#[trigger] es[j]).0 == t.0[k].tag && es[j].1 == t.0[k].orig;
            assert(j != n - 1);
            assert(es[j].0 == u.0[i].tag);
        }
        u
    }
}

/// The tags of a text in pieces, replaced where they stand, give the plain text.
proof fn lemma_substituted_pieces(
    ps: Seq<Piece>,
    tail: Seq<char>,
    es: Seq<(Seq<char>, Seq<char>)>,
)
    requires
        well_made(ps),
        agrees(ps, es),
        tags_proper(es),
        no_tag_in(es, plain(ps, tail)),
    ensures
        substituted(es, tagged(ps, tail)) == plain(ps, tail),
    decreases ps.len(),
{
    let none = Seq::<char>::empty();
    if ps.len() == 0 {
        lemma_plain_stays(es, tail, none);
        assert(tail + none =~= tail);
    } else {
        let first = ps[0];
        let more = ps.skip(1);
        let rest = tagged(more, tail);
        assert forall|i: int| 0 <= i < more.len() implies #[trigger] more[i] == ps[i + 1] by {}
        assert forall|i: int| 0 <= i < es.len() implies occurs_nowhere(
            plain(more, tail),
            (#[trigger] es[i]).0,
        ) && occurs_nowhere(first.lit, es[i].0) by {
            assert(occurs_nowhere(plain(ps, tail), es[i].0));
            assert(plain(ps, tail) =~= first.lit + first.orig + plain(more, tail) + none);
            lemma_nowhere_in_part(first.lit + first.orig, plain(more, tail), none, es[i].0);
            assert(plain(ps, tail) =~= none + first.lit + (first.orig + plain(more, tail)));
            lemma_nowhere_in_part(none, first.lit, first.orig + plain(more, tail), es[i].0);
        }
        lemma_substituted_pieces(more, tail, es);
        let behind = first.tag + rest;
        assert(tagged(ps, tail) =~= first.lit + behind);
        assert(bracketed(first.tag));
        lemma_plain_stays(es, first.lit, behind);
        let m = first.tag.len() as int;
        assert(behind.take(m) =~= first.tag);
        assert(behind.skip(m) =~= rest);
        assert forall|k: int| 0 < k < m - 1 implies behind[k] != '[' && behind[k] != ']' by {
            assert(behind[k] == first.tag[k]);
        }
        lemma_substituted_piece(es, behind, m);
        assert(tag_meaning(es, first.tag) == first.orig);
        assert(first.lit + (first.orig + plain(more, tail)) =~= plain(ps, tail));
    }
}

/// Plain text in which no tag stands stays as it is, where nothing or an opening bracket
/// follows.
proof fn lemma_plain_stays(es: Seq<(Seq<char>, Seq<char>)>, p: Seq<char>, rest: Seq<char>)
    requires
        tags_proper(es),
        no_tag_in(es, p),
        rest.len() > 0 ==> rest[0] == '[',
    ensures
        substituted(es, p + rest) == p + substituted(es, rest),
{
    let all = p + rest;
    let n = p.len() as int;
    assert forall|k: int| 0 <= k < n implies tag_in_front(es, #[trigger] all.skip(k), 0)
        is None by {
        if tag_in_front(es, all.skip(k), 0) is Some {
            lemma_front_is_bracketed(es, all.skip(k));
            let i = tag_in_front(es, all.skip(k), 0)->0;
            let key = es[i].0;
            assert(occurs_nowhere(p, es[i].0));
            assert(bracketed(es[i].0));
            lemma_no_tag_begins(p, rest, key);
            assert(all.subrange(k, k + key.len()) =~= all.skip(k).take(key.len() as int));
            assert(occurs_at(all, key, k));
        }
    }
    lemma_substituted_prefix(es, all, n);
    assert(all.take(n) =~= p);
    assert(all.skip(n) =~= rest);
}

/// In a text without opening brackets no tag stands.
pub proof fn lemma_no_bracket_no_tag(es: Seq<(Seq<char>, Seq<char>)>, s: Seq<char>)
    requires
        tags_proper(es),
        lacks(s, '['),
    ensures
        no_tag_in(es, s),
{
    assert forall|i: int| 0 <= i < es.len() implies occurs_nowhere(s, (#[trigger] es[i]).0) by {
        let key = es[i].0;
        assert(bracketed(key));
        assert forall|k: int| !#[trigger] occurs_at(s, key, k) by {
            if occurs_at(s, key, k) {
                assert(s.subrange(k, k + key.len())[0] == s[k]);
            }
        }
    }
}

// ---------------------------------------------------------------------------
// The whole way
// ---------------------------------------------------------------------------

/// Whether what is found of one kind is as the regular expression says.
pub open spec fn proper_pass(r: Redaction, pattern: Seq<char>, group: int) -> bool {
    spans_fit(found(r.text, pattern, group), r.text.len() as int) && all_proper(
        pattern,
        r.text,
        found(r.text, pattern, group),
    )
}

/// Whether what is found of every kind is as the regular expressions say.
pub open spec fn proper_redaction(r: Redaction) -> bool {
    let r1 = pass(r, EMAIL_PATTERN@, 0, "EMAIL"@);
    let r2 = pass(r1, IP_PATTERN@, 0, "IP_ADDRESS"@);
    let r3 = pass(r2, CC_PATTERN@, 0, "CREDIT_CARD"@);
    let r4 = pass(r3, SSN_PATTERN@, 0, "SSN"@);
    &&& proper_pass(r, EMAIL_PATTERN@, 0)
    &&& proper_pass(r1, IP_PATTERN@, 0)
    &&& proper_pass(r2, CC_PATTERN@, 0)
    &&& proper_pass(r3, SSN_PATTERN@, 0)
    &&& proper_pass(r4, PHONE_PATTERN@, 2)
}

/// Whether proper tags stand for the same in two lists, whatever their order.
pub open spec fn same_meaning(
    es: Seq<(Seq<char>, Seq<char>)>,
    fs: Seq<(Seq<char>, Seq<char>)>,
) -> bool {
    tags_proper(es) && forall|tag: Seq<char>| #[trigger] text_under(es, tag) == text_under(fs, tag)
}

/// Putting a text under a proper tag leaves the tags proper.
proof fn lemma_proper_with(es: Seq<(Seq<char>, Seq<char>)>, tag: Seq<char>, value: Seq<char>)
    requires
        tags_proper(es),
        bracketed(tag),
    ensures
        tags_proper(with_entry(es, tag, value)),
{
    lemma_tag_index(es, tag, 0);
    let fs = with_entry(es, tag, value);
    assert forall|i: int, j: int| 0 <= i < j < fs.len() implies (#[trigger] fs[i]).0 != (
    #[trigger] fs[j]).0 by {
        if i < es.len() && j < es.len() {
            assert(es[i].0 != es[j].0);
            assert(fs[i].0 == es[i].0);
            assert(fs[j].0 == es[j].0);
        }
    }
}

/// Noting what is hidden leaves the tags proper.
pub proof fn lemma_proper_noted(
    es: Seq<(Seq<char>, Seq<char>)>,
    s: Seq<char>,
    cs: Seq<(int, int)>,
    label: Seq<char>,
)
    requires
        tags_proper(es),
        label_ok(label),
    ensures
        tags_proper(noted(es, s, cs, label)),
    decreases cs.len(),
{
    if cs.len() > 0 {
        lemma_proper_noted(es, s, cs.drop_last(), label);
        lemma_tag_text(label, cs.len());
        lemma_proper_with(
            noted(es, s, cs.drop_last(), label),
            tag_text(label, cs.len()),
            s.subrange(cs.last().0, cs.last().1),
        );
    }
}

proof fn lemma_labels()
    ensures
        label_ok("EMAIL"@) && "EMAIL"@[0] == 'E',
        label_ok("IP_ADDRESS"@) && "IP_ADDRESS"@[0] == 'I',
        label_ok("CREDIT_CARD"@) && "CREDIT_CARD"@[0] == 'C',
        label_ok("SSN"@) && "SSN"@[0] == 'S',
        label_ok("PHONE"@) && "PHONE"@[0] == 'P',
{
    reveal_strlit("EMAIL");
    reveal_strlit("IP_ADDRESS");
    reveal_strlit("CREDIT_CARD");
    reveal_strlit("SSN");
    reveal_strlit("PHONE");
}

/// Hiding leaves every tag proper.
pub proof fn law_tags_stay_proper(r: Redaction)
    requires
        tags_proper(r.entries),
    ensures
        tags_proper(redacted(r).entries),
{
    lemma_labels();
    let r1 = pass(r, EMAIL_PATTERN@, 0, "EMAIL"@);
    let r2 = pass(r1, IP_PATTERN@, 0, "IP_ADDRESS"@);
    let r3 = pass(r2, CC_PATTERN@, 0, "CREDIT_CARD"@);
    let r4 = pass(r3, SSN_PATTERN@, 0, "SSN"@);
    lemma_proper_noted(r.entries, r.text, found(r.text, EMAIL_PATTERN@, 0), "EMAIL"@);
    lemma_proper_noted(r1.entries, r1.text, found(r1.text, IP_PATTERN@, 0), "IP_ADDRESS"@);
    lemma_proper_noted(r2.entries, r2.text, found(r2.text, CC_PATTERN@, 0), "CREDIT_CARD"@);
    lemma_proper_noted(r3.entries, r3.text, found(r3.text, SSN_PATTERN@, 0), "SSN"@);
    lemma_proper_noted(r4.entries, r4.text, found(r4.text, PHONE_PATTERN@, 2), "PHONE"@);
}

/// The pieces after one more kind has been hidden.
proof fn pieces_of_pass(
    ps: Seq<Piece>,
    tail: Seq<char>,
    r: Redaction,
    m: nat,
    pattern: Seq<char>,
    group: int,
    label: Seq<char>,
) -> (t: (Seq<Piece>, Seq<char>))
    requires
        well_made(ps),
        tagged(ps, tail) == r.text,
        agrees(ps, r.entries),
        label_ok(label),
        letters_avoid(ps, label[0]),
        origs_there(ps),
        all_known(ps, m),
        plain(ps, tail).len() <= m,
        proper_pass(r, pattern, group),
        pattern == EMAIL_PATTERN@ && ps.len() == 0 || pattern == IP_PATTERN@ || pattern
            == CC_PATTERN@ || pattern == SSN_PATTERN@ || (pattern == PHONE_PATTERN@ && m
            < 1_000_000),
    ensures
        well_made(t.0),
        tagged(t.0, t.1) == pass(r, pattern, group, label).text,
        plain(t.0, t.1) == plain(ps, tail),
        agrees(t.0, pass(r, pattern, group, label).entries),
        origs_there(t.0),
        all_known(t.0, m),
        forall|c: char|
            c != label[0] && letters_avoid(ps, c) ==> #[trigger] letters_avoid(t.0, c),
{
    let cs = found(r.text, pattern, group);
    assert forall|i: int| 0 <= i < cs.len() implies (#[trigger] cs[i]).0 < cs[i].1 by {
        assert(match_proper(pattern, r.text, cs[i].0, cs[i].1));
    }
    let t = pieces_after(ps, tail, r.entries, cs, label, pattern, m);
    lemma_few_tags(t.0, t.1);
    t
}

/// The pieces of a text once everything in it is hidden.
proof fn redacted_pieces(r: Redaction) -> (t: (Seq<Piece>, Seq<char>))
    requires
        r.text.len() < 1_000_000,
        proper_redaction(r),
    ensures
        well_made(t.0),
        tagged(t.0, t.1) == redacted(r).text,
        plain(t.0, t.1) == r.text,
        agrees(t.0, redacted(r).entries),
{
    lemma_labels();
    let none = Seq::<Piece>::empty();
    let m = r.text.len();
    let r1 = pass(r, EMAIL_PATTERN@, 0, "EMAIL"@);
    let r2 = pass(r1, IP_PATTERN@, 0, "IP_ADDRESS"@);
    let r3 = pass(r2, CC_PATTERN@, 0, "CREDIT_CARD"@);
    let r4 = pass(r3, SSN_PATTERN@, 0, "SSN"@);
    assert(letters_avoid(none, 'E') && letters_avoid(none, 'I') && letters_avoid(none, 'C')
        && letters_avoid(none, 'S') && letters_avoid(none, 'P'));
    let t1 = pieces_of_pass(none, r.text, r, m, EMAIL_PATTERN@, 0, "EMAIL"@);
    assert(letters_avoid(t1.0, 'I') && letters_avoid(t1.0, 'C') && letters_avoid(t1.0, 'S')
        && letters_avoid(t1.0, 'P'));
    let t2 = pieces_of_pass(t1.0, t1.1, r1, m, IP_PATTERN@, 0, "IP_ADDRESS"@);
    assert(letters_avoid(t2.0, 'C') && letters_avoid(t2.0, 'S') && letters_avoid(t2.0, 'P'));
    let t3 = pieces_of_pass(t2.0, t2.1, r2, m, CC_PATTERN@, 0, "CREDIT_CARD"@);
    assert(letters_avoid(t3.0, 'S') && letters_avoid(t3.0, 'P'));
    let t4 = pieces_of_pass(t3.0, t3.1, r3, m, SSN_PATTERN@, 0, "SSN"@);
    assert(letters_avoid(t4.0, 'P'));
    pieces_of_pass(t4.0, t4.1, r4, m, PHONE_PATTERN@, 2, "PHONE"@)
}

/// What was hidden is put back: a text of less than a million characters in which no tag
/// stands already is the same after redacting and unredacting, in whatever order the tags are
/// replaced.
pub proof fn law_unredact_undoes_redact(r: Redaction, es: Seq<(Seq<char>, Seq<char>)>)
    requires
        r.text.len() < 1_000_000,
        proper_redaction(r),
        same_meaning(es, redacted(r).entries),
        no_tag_in(es, r.text),
    ensures
        restored(es, redacted(r).text) == r.text,
{
    let t = redacted_pieces(r);
    assert forall|i: int| 0 <= i < t.0.len() implies exists|j: int|
        0 <= j < es.len() && (#[trigger] es[j]).0 == (#[trigger] t.0[i]).tag && es[j].1
            == t.0[i].orig by {
        assert(text_under(es, t.0[i].tag) == Some(t.0[i].orig));
        lemma_tag_index(es, t.0[i].tag, 0);
        let j = tag_index(es, t.0[i].tag, 0)->0;
        assert(es[j].0 == t.0[i].tag);
    }
    let n = es.len() as int;
    let u = restored_pieces(t.0, t.1, es, n);
    assert(es.take(n) =~= es);
    assert(u.0.len() == 0) by {
        if u.0.len() > 0 {
            let j = choose|j: int|
                n <= j < es.len() && (#[trigger] es[j]).0 == u.0[0].tag && es[j].1 == u.0[0].orig;
            assert(j < n);
        }
    }
}

/// A stream, too, puts back what was hidden in a text of less than a million characters in
/// which no tag stands already.
pub proof fn law_stream_undoes_redact(r: Redaction)
    requires
        r.text.len() < 1_000_000,
        proper_redaction(r),
        tags_proper(redacted(r).entries),
        no_tag_in(redacted(r).entries, r.text),
    ensures
        whole(redacted(r).entries, redacted(r).text) == r.text,
{
    let t = redacted_pieces(r);
    let es = redacted(r).entries;
    lemma_substituted_pieces(t.0, t.1, es);
    law_stream_replaces_tags(es, redacted(r).text);
}

} // verus!
