//! Putting hidden texts back in a stream: what holds however the text is cut.

use vstd::prelude::*;

use crate::redaction::last_char;
use crate::redaction::lemma_last_char;
use crate::redaction::lemma_step_open;
use crate::redaction::lemma_step_plain;
use crate::redaction::lemma_step_tag;
use crate::redaction::lemma_tag_index;
use crate::redaction::stream_step;
use crate::redaction::tag_index;
use crate::redaction::tag_meaning;
use crate::redaction::tag_start;
use crate::redaction_roundtrip::bracketed;
use crate::redaction_roundtrip::tags_proper;
use crate::text;
use crate::text::byte_len;
use crate::text::find_char;

verus! {

// ---------------------------------------------------------------------------
// Putting back in pieces
// ---------------------------------------------------------------------------

/// What a stream gives out in all for buffered text: what comes at once and what a flush
/// gives.
pub open spec fn whole(es: Seq<(Seq<char>, Seq<char>)>, s: Seq<char>) -> Seq<char> {
    stream_step(es, s).0 + stream_step(es, s).1
}

/// Whether every tag takes at most 31 bytes.
pub open spec fn tags_short(es: Seq<(Seq<char>, Seq<char>)>) -> bool {
    forall|i: int| 0 <= i < es.len() ==> byte_len((#[trigger] es[i]).0) <= 31
}

/// Whether a character does not occur in a text.
pub open spec fn lacks(s: Seq<char>, c: char) -> bool {
    forall|i: int| 0 <= i < s.len() ==> s[i] != c
}

pub proof fn lemma_find_char_unique(s: Seq<char>, c: char, from: int, at: int)
    requires
        0 <= from <= at < s.len(),
        s[at] == c,
        forall|i: int| from <= i < at ==> s[i] != c,
    ensures
        find_char(s, c, from) == Some(at),
{
    text::lemma_find_char(s, c, from);
}

pub proof fn lemma_find_char_none(s: Seq<char>, c: char, from: int)
    requires
        0 <= from,
        forall|i: int| from <= i < s.len() ==> s[i] != c,
    ensures
        find_char(s, c, from) is None,
{
    text::lemma_find_char(s, c, from);
}

pub proof fn lemma_last_char_unique(s: Seq<char>, c: char, from: int, to: int, at: int)
    requires
        from <= at < to,
        s[at] == c,
        forall|i: int| at < i < to ==> s[i] != c,
    ensures
        last_char(s, c, from, to) == Some(at),
{
    lemma_last_char(s, c, from, to);
}

/// Text without an opening bracket is given out before anything that follows it.
#[verifier::spinoff_prover]
pub proof fn lemma_plain_prefix(es: Seq<(Seq<char>, Seq<char>)>, p: Seq<char>, s: Seq<char>)
    requires
        lacks(p, '['),
    ensures
        stream_step(es, p + s) == (p + stream_step(es, s).0, stream_step(es, s).1),
{
    let all = p + s;
    let n = p.len() as int;
    assert(all.skip(n) =~= s);
    assert(all.skip(0) =~= all);
    text::lemma_find_char(all, '[', n);
    match find_char(all, '[', n) {
        None => {
            lemma_find_char_none(all, '[', 0);
            lemma_step_plain(es, all, 0);
            lemma_step_plain(es, all, n);
            assert(all.subrange(0, all.len() as int) =~= p + all.subrange(n, all.len() as int));
        },
        Some(open) => {
            lemma_find_char_unique(all, '[', 0, open);
            match find_char(all, ']', open) {
                None => {
                    lemma_step_open(es, all, 0, open);
                    lemma_step_open(es, all, n, open);
                    assert(all.subrange(0, open) =~= p + all.subrange(n, open));
                    assert(all.subrange(0, open + 1) + stream_step(es, all.skip(open + 1)).0 =~= p
                        + (all.subrange(n, open + 1) + stream_step(es, all.skip(open + 1)).0));
                },
                Some(close) => {
                    text::lemma_find_char(all, ']', open);
                    lemma_last_char(all, '[', open, close);
                    let start = tag_start(all, open, close);
                    lemma_step_tag(es, all, 0, open, close);
                    lemma_step_tag(es, all, n, open, close);
                    let m = tag_meaning(es, all.subrange(start, close + 1));
                    let rest = stream_step(es, all.skip(close + 1)).0;
                    assert(all.subrange(0, start) + m + rest =~= p + (all.subrange(n, start) + m
                        + rest));
                },
            }
        },
    }
}

/// A long bracketed piece is no tag.
proof fn lemma_long_is_no_tag(es: Seq<(Seq<char>, Seq<char>)>, piece: Seq<char>)
    requires
        tags_short(es),
        byte_len(piece) > 31,
    ensures
        tag_meaning(es, piece) == piece,
{
    lemma_tag_index(es, piece, 0);
}

/// Releasing an opening bracket that too much follows changes nothing of what is given out
/// in all, whatever comes later.
proof fn lemma_release(es: Seq<(Seq<char>, Seq<char>)>, a: Seq<char>, b: Seq<char>, open: int)
    requires
        tags_short(es),
        find_char(a, '[', 0) == Some(open),
        find_char(a, ']', open) is None,
        byte_len(a.skip(open)) > 30,
    ensures
        whole(es, a + b) == a.take(open + 1) + whole(es, a.skip(open + 1) + b),
{
    let ab = a + b;
    text::lemma_find_char(a, '[', 0);
    text::lemma_find_char(a, ']', open);
    lemma_find_char_unique(ab, '[', 0, open);
    assert(ab.skip(0) =~= ab);
    assert(ab.skip(open + 1) =~= a.skip(open + 1) + b);
    assert(ab.skip(open) =~= a.skip(open) + b);
    assert(ab.subrange(0, open + 1) =~= a.take(open + 1));
    text::lemma_byte_len_concat(a.skip(open), b);
    text::lemma_byte_len_bound(b);
    text::lemma_find_char(ab, ']', open);
    match find_char(ab, ']', open) {
        None => {
            lemma_step_open(es, ab, 0, open);
            let rest = stream_step(es, ab.skip(open + 1));
            assert(ab.subrange(0, open + 1) + rest.0 + rest.1 =~= a.take(open + 1) + (rest.0
                + rest.1));
        },
        Some(e) => {
            assert(e >= a.len()) by {
                if e < a.len() {
                    assert(a[e] == ab[e]);
                }
            }
            lemma_last_char(ab, '[', open, e);
            let q = tag_start(ab, open, e);
            lemma_step_tag(es, ab, 0, open, e);
            let rest = stream_step(es, ab.skip(e + 1));
            if q == open {
                let tag = ab.subrange(open, e + 1);
                assert(tag =~= a.skip(open) + b.take(e + 1 - a.len()));
                text::lemma_byte_len_concat(a.skip(open), b.take(e + 1 - a.len()));
                text::lemma_byte_len_bound(b.take(e + 1 - a.len()));
                lemma_long_is_no_tag(es, tag);
                let p = ab.subrange(open + 1, e + 1);
                assert(lacks(p, '['));
                lemma_plain_prefix(es, p, ab.skip(e + 1));
                assert(ab.skip(open + 1) =~= p + ab.skip(e + 1));
                assert(ab.subrange(0, open) + tag + rest.0 + rest.1 =~= a.take(open + 1) + (p
                    + rest.0 + rest.1));
            } else {
                text::lemma_find_char(ab, '[', open + 1);
                let open2 = find_char(ab, '[', open + 1)->0;
                assert(open2 <= q);
                lemma_find_char_unique(ab, ']', open2, e);
                lemma_last_char_unique(ab, '[', open2, e, q);
                lemma_step_tag(es, ab, open + 1, open2, e);
                let m = tag_meaning(es, ab.subrange(q, e + 1));
                assert(ab.subrange(0, q) + m + rest.0 + rest.1 =~= a.take(open + 1) + (
                ab.subrange(open + 1, q) + m + rest.0 + rest.1));
            }
        },
    }
}

/// What a stream gives out in all does not depend on where the text is cut into pieces:
/// taking `a` first and `b` later comes to the same as taking both at once.
pub proof fn law_pieces_do_not_matter(
    es: Seq<(Seq<char>, Seq<char>)>,
    a: Seq<char>,
    b: Seq<char>,
)
    requires
        tags_short(es),
    ensures
        stream_step(es, a).0 + whole(es, stream_step(es, a).1 + b) == whole(es, a + b),
    decreases a.len(),
{
    let ab = a + b;
    assert(a.skip(0) =~= a);
    assert(ab.skip(0) =~= ab);
    text::lemma_find_char(a, '[', 0);
    match find_char(a, '[', 0) {
        None => {
            lemma_step_plain(es, a, 0);
            assert(a.subrange(0, a.len() as int) =~= a);
            assert(a.skip(a.len() as int) + b =~= b);
            lemma_plain_prefix(es, a, b);
            assert(a + stream_step(es, b).0 + stream_step(es, b).1 =~= a + whole(es, b));
        },
        Some(open) => match find_char(a, ']', open) {
            None => {
                lemma_step_open(es, a, 0, open);
                if byte_len(a.skip(open)) > 30 {
                    lemma_release(es, a, b, open);
                    law_pieces_do_not_matter(es, a.skip(open + 1), b);
                    let s = stream_step(es, a.skip(open + 1));
                    assert(a.subrange(0, open + 1) =~= a.take(open + 1));
                    assert(a.take(open + 1) + s.0 + whole(es, s.1 + b) =~= a.take(open + 1) + (s.0
                        + whole(es, s.1 + b)));
                } else {
                    let p = a.subrange(0, open);
                    lemma_plain_prefix(es, p, a.skip(open) + b);
                    assert(ab =~= p + (a.skip(open) + b));
                    let s = stream_step(es, a.skip(open) + b);
                    assert(p + s.0 + s.1 =~= p + (s.0 + s.1));
                }
            },
            Some(close) => {
                text::lemma_find_char(a, ']', open);
                lemma_find_char_unique(ab, '[', 0, open);
                lemma_find_char_unique(ab, ']', open, close);
                lemma_last_char(a, '[', open, close);
                let start = tag_start(a, open, close);
                assert(start == open || a[start] == '[');
                lemma_last_char_unique(ab, '[', open, close, start);
                lemma_step_tag(es, a, 0, open, close);
                lemma_step_tag(es, ab, 0, open, close);
                assert(ab.skip(close + 1) =~= a.skip(close + 1) + b);
                assert(ab.subrange(0, start) =~= a.subrange(0, start));
                assert(ab.subrange(start, close + 1) =~= a.subrange(start, close + 1));
                law_pieces_do_not_matter(es, a.skip(close + 1), b);
                let head = a.subrange(0, start) + tag_meaning(es, a.subrange(start, close + 1));
                let s = stream_step(es, a.skip(close + 1));
                let t = stream_step(es, ab.skip(close + 1));
                assert(head + s.0 + whole(es, s.1 + b) =~= head + (s.0 + whole(es, s.1 + b)));
                assert(head + t.0 + t.1 =~= head + (t.0 + t.1));
            },
        },
    }
}

/// Whether some text may be kept back: nothing, or at most 30 bytes that begin with an opening
/// bracket and hold no closing one.
pub open spec fn may_be_kept(s: Seq<char>) -> bool {
    s.len() == 0 || (s[0] == '[' && lacks(s, ']') && byte_len(s) <= 30)
}

/// A stream keeps back only what may become a tag: nothing, or at most 30 bytes that begin
/// with an opening bracket and hold no closing one.
pub proof fn law_little_is_kept(es: Seq<(Seq<char>, Seq<char>)>, s: Seq<char>)
    ensures
        may_be_kept(stream_step(es, s).1),
    decreases s.len(),
{
    assert(s.skip(0) =~= s);
    text::lemma_find_char(s, '[', 0);
    match find_char(s, '[', 0) {
        None => {
            lemma_step_plain(es, s, 0);
            assert(s.skip(s.len() as int) =~= Seq::<char>::empty());
        },
        Some(open) => {
            text::lemma_find_char(s, ']', open);
            match find_char(s, ']', open) {
                None => {
                    lemma_step_open(es, s, 0, open);
                    if byte_len(s.skip(open)) > 30 {
                        law_little_is_kept(es, s.skip(open + 1));
                    } else {
                        assert(s.skip(open)[0] == '[');
                    }
                },
                Some(close) => {
                    lemma_step_tag(es, s, 0, open, close);
                    law_little_is_kept(es, s.skip(close + 1));
                },
            }
        },
    }
}

// ---------------------------------------------------------------------------
// What is given out in all
// ---------------------------------------------------------------------------

/// The first entry, at or after `from`, whose tag stands at the beginning of a text.
pub open spec fn tag_in_front(
    es: Seq<(Seq<char>, Seq<char>)>,
    s: Seq<char>,
    from: int,
) -> Option<int>
    decreases es.len() - from,
{
    if from < 0 || from >= es.len() {
        None
    } else if es[from].0.len() > 0 && text::has_prefix(s, es[from].0) {
        Some(from)
    } else {
        tag_in_front(es, s, from + 1)
    }
}

/// A text with every tag in it replaced by what it stands for, from the left; what is put in
/// is not looked at again.
pub open spec fn substituted(es: Seq<(Seq<char>, Seq<char>)>, s: Seq<char>) -> Seq<char>
    decreases s.len(),
{
    if s.len() == 0 {
        s
    } else {
        match tag_in_front(es, s, 0) {
            Some(i) => if 0 <= i < es.len() && 0 < es[i].0.len() <= s.len() {
                es[i].1 + substituted(es, s.skip(es[i].0.len() as int))
            } else {
                s
            },
            None => seq![s[0]] + substituted(es, s.skip(1)),
        }
    }
}

proof fn lemma_tag_in_front(es: Seq<(Seq<char>, Seq<char>)>, s: Seq<char>, from: int)
    requires
        0 <= from,
    ensures
        match tag_in_front(es, s, from) {
            Some(i) => from <= i < es.len() && es[i].0.len() > 0 && text::has_prefix(s, es[i].0)
                && forall|j: int|
                from <= j < i ==> !((#[trigger] es[j]).0.len() > 0 && text::has_prefix(
                    s,
                    es[j].0,
                )),
            None => forall|j: int|
                from <= j < es.len() ==> !((#[trigger] es[j]).0.len() > 0 && text::has_prefix(
                    s,
                    es[j].0,
                )),
        },
    decreases es.len() - from,
{
    if from < es.len() && !(es[from].0.len() > 0 && text::has_prefix(s, es[from].0)) {
        lemma_tag_in_front(es, s, from + 1);
    }
}

/// A proper tag stands at the beginning of a text only where an opening bracket does and its
/// closing one follows with no bracket between.
pub proof fn lemma_front_is_bracketed(es: Seq<(Seq<char>, Seq<char>)>, s: Seq<char>)
    requires
        tags_proper(es),
        tag_in_front(es, s, 0) is Some,
    ensures
        ({
            let i = tag_in_front(es, s, 0)->0;
            let n = es[i].0.len() as int;
            &&& 0 <= i < es.len()
            &&& 2 <= n <= s.len()
            &&& s.take(n) == es[i].0
            &&& s[0] == '['
            &&& s[n - 1] == ']'
            &&& forall|j: int| 0 < j < n - 1 ==> s[j] != '[' && s[j] != ']'
        }),
{
    lemma_tag_in_front(es, s, 0);
    let i = tag_in_front(es, s, 0)->0;
    let n = es[i].0.len() as int;
    assert(bracketed(es[i].0));
    assert(s.take(n) == es[i].0);
    assert forall|j: int| 0 <= j < n implies s[j] == es[i].0[j] by {
        assert(s.take(n)[j] == s[j]);
    }
}

/// Characters at which no tag begins stay as they are.
pub proof fn lemma_substituted_prefix(es: Seq<(Seq<char>, Seq<char>)>, s: Seq<char>, n: int)
    requires
        0 <= n <= s.len(),
        forall|k: int| 0 <= k < n ==> tag_in_front(es, #[trigger] s.skip(k), 0) is None,
    ensures
        substituted(es, s) == s.take(n) + substituted(es, s.skip(n)),
    decreases n,
{
    if n == 0 {
        assert(s.take(0) + substituted(es, s.skip(0)) =~= substituted(es, s.skip(0)));
        assert(s.skip(0) =~= s);
    } else {
        assert(s.skip(0) =~= s);
        assert(tag_in_front(es, s.skip(0), 0) is None);
        let t = s.skip(1);
        assert forall|k: int| 0 <= k < n - 1 implies tag_in_front(es, #[trigger] t.skip(k), 0)
            is None by {
            assert(t.skip(k) =~= s.skip(k + 1));
        }
        lemma_substituted_prefix(es, t, n - 1);
        assert(t.skip(n - 1) =~= s.skip(n));
        assert(seq![s[0]] + (t.take(n - 1) + substituted(es, s.skip(n))) =~= s.take(n)
            + substituted(es, s.skip(n)));
    }
}

/// Where no closing bracket follows an opening one, no tag stands behind it, nor before it
/// where there is no other opening one.
proof fn lemma_no_tags(es: Seq<(Seq<char>, Seq<char>)>, s: Seq<char>, open: int)
    requires
        tags_proper(es),
        0 <= open <= s.len(),
        forall|i: int| 0 <= i < open ==> s[i] != '[',
        forall|i: int| open <= i < s.len() ==> s[i] != ']',
    ensures
        forall|k: int| 0 <= k < s.len() ==> tag_in_front(es, #[trigger] s.skip(k), 0) is None,
{
    assert forall|k: int| 0 <= k < s.len() implies tag_in_front(es, #[trigger] s.skip(k), 0)
        is None by {
        if tag_in_front(es, s.skip(k), 0) is Some {
            lemma_front_is_bracketed(es, s.skip(k));
            let i = tag_in_front(es, s.skip(k), 0)->0;
            let m = es[i].0.len() as int;
            assert(s.skip(k)[0] == s[k]);
            assert(s.skip(k)[m - 1] == s[k + m - 1]);
        }
    }
}

/// Before a bracketed piece that is the first to be closed, no tag begins.
proof fn lemma_no_tags_before(
    es: Seq<(Seq<char>, Seq<char>)>,
    s: Seq<char>,
    open: int,
    start: int,
    close: int,
)
    requires
        tags_proper(es),
        0 <= open <= start < close < s.len(),
        forall|i: int| 0 <= i < open ==> s[i] != '[',
        forall|i: int| open <= i < close ==> s[i] != ']',
        s[start] == '[',
    ensures
        forall|k: int| 0 <= k < start ==> tag_in_front(es, #[trigger] s.skip(k), 0) is None,
{
    assert forall|k: int| 0 <= k < start implies tag_in_front(es, #[trigger] s.skip(k), 0)
        is None by {
        if tag_in_front(es, s.skip(k), 0) is Some {
            lemma_front_is_bracketed(es, s.skip(k));
            let i = tag_in_front(es, s.skip(k), 0)->0;
            let n = es[i].0.len() as int;
            assert(s.skip(k)[0] == s[k]);
            assert(s.skip(k)[n - 1] == s[k + n - 1]);
            assert(k + n - 1 >= close);
            assert(s.skip(k)[start - k] == s[start]);
        }
    }
}

/// A bracketed piece in front is replaced by what it stands for.
pub proof fn lemma_substituted_piece(es: Seq<(Seq<char>, Seq<char>)>, t: Seq<char>, m: int)
    requires
        tags_proper(es),
        2 <= m <= t.len(),
        t[0] == '[',
        t[m - 1] == ']',
        forall|k: int| 0 < k < m - 1 ==> t[k] != '[' && t[k] != ']',
    ensures
        substituted(es, t) == tag_meaning(es, t.take(m)) + substituted(es, t.skip(m)),
{
    let piece = t.take(m);
    lemma_tag_in_front(es, t, 0);
    lemma_tag_index(es, piece, 0);
    match tag_in_front(es, t, 0) {
        Some(i) => {
            lemma_front_is_bracketed(es, t);
            assert(es[i].0.len() == m);
            assert(es[i].0 == piece);
            let j = tag_index(es, piece, 0)->0;
            assert(es[j].0 == es[i].0);
            assert(j == i);
        },
        None => {
            if tag_index(es, piece, 0) is Some {
                let j = tag_index(es, piece, 0)->0;
                assert(es[j].0.len() == m);
                assert(text::has_prefix(t, es[j].0));
            }
            assert forall|k: int| 0 <= k < m implies tag_in_front(es, #[trigger] t.skip(k), 0)
                is None by {
                if k == 0 {
                    assert(t.skip(0) =~= t);
                } else if tag_in_front(es, t.skip(k), 0) is Some {
                    lemma_front_is_bracketed(es, t.skip(k));
                    assert(t.skip(k)[0] == t[k]);
                }
            }
            lemma_substituted_prefix(es, t, m);
        },
    }
}

/// What a stream gives out in all is the text with every tag in it replaced by what it stands
/// for.
#[verifier::spinoff_prover]
#[verifier::rlimit(40)]
pub proof fn law_stream_replaces_tags(es: Seq<(Seq<char>, Seq<char>)>, s: Seq<char>)
    requires
        tags_proper(es),
    ensures
        whole(es, s) == substituted(es, s),
    decreases s.len(),
{
    let len = s.len() as int;
    assert(s.skip(0) =~= s);
    assert(s.skip(len) =~= Seq::<char>::empty());
    assert(s.take(len) + Seq::<char>::empty() =~= s);
    text::lemma_find_char(s, '[', 0);
    match find_char(s, '[', 0) {
        None => {
            lemma_step_plain(es, s, 0);
            lemma_no_tags(es, s, len);
            lemma_substituted_prefix(es, s, len);
            assert(whole(es, s) =~= s);
        },
        Some(open) => {
            text::lemma_find_char(s, ']', open);
            match find_char(s, ']', open) {
                None => {
                    lemma_step_open(es, s, 0, open);
                    lemma_no_tags(es, s, open);
                    if byte_len(s.skip(open)) > 30 {
                        lemma_substituted_prefix(es, s, open + 1);
                        law_stream_replaces_tags(es, s.skip(open + 1));
                        let rest = stream_step(es, s.skip(open + 1));
                        assert(s.subrange(0, open + 1) =~= s.take(open + 1));
                        assert(s.take(open + 1) + rest.0 + rest.1 =~= s.take(open + 1) + (rest.0
                            + rest.1));
                    } else {
                        lemma_substituted_prefix(es, s, len);
                        assert(whole(es, s) =~= s);
                    }
                },
                Some(close) => {
                    lemma_last_char(s, '[', open, close);
                    let start = tag_start(s, open, close);
                    lemma_step_tag(es, s, 0, open, close);
                    law_stream_replaces_tags(es, s.skip(close + 1));
                    lemma_no_tags_before(es, s, open, start, close);
                    lemma_substituted_prefix(es, s, start);
                    let t = s.skip(start);
                    let m = close + 1 - start;
                    let piece = s.subrange(start, close + 1);
                    assert(t.take(m) =~= piece);
                    assert(t.skip(m) =~= s.skip(close + 1));
                    assert forall|k: int| 0 < k < m - 1 implies t[k] != '[' && t[k] != ']' by {
                        assert(t[k] == s[start + k]);
                    }
                    lemma_substituted_piece(es, t, m);
                    let rest = stream_step(es, s.skip(close + 1));
                    assert(s.subrange(0, start) =~= s.take(start));
                    assert(s.take(start) + tag_meaning(es, piece) + rest.0 + rest.1 =~= s.take(
                        start,
                    ) + (tag_meaning(es, piece) + (rest.0 + rest.1)));
                },
            }
        },
    }
}

/// What a stream has given out, and what it keeps, after some pieces.
pub open spec fn fed(es: Seq<(Seq<char>, Seq<char>)>, pieces: Seq<Seq<char>>) -> (
    Seq<char>,
    Seq<char>,
)
    decreases pieces.len(),
{
    if pieces.len() == 0 {
        (seq![], seq![])
    } else {
        let before = fed(es, pieces.drop_last());
        let step = stream_step(es, before.1 + pieces.last());
        (before.0 + step.0, step.1)
    }
}

/// Some pieces, one behind the other.
pub open spec fn put_together(pieces: Seq<Seq<char>>) -> Seq<char>
    decreases pieces.len(),
{
    if pieces.len() == 0 {
        seq![]
    } else {
        put_together(pieces.drop_last()) + pieces.last()
    }
}

proof fn lemma_fed(es: Seq<(Seq<char>, Seq<char>)>, pieces: Seq<Seq<char>>, more: Seq<char>)
    requires
        tags_short(es),
    ensures
        fed(es, pieces).0 + whole(es, fed(es, pieces).1 + more) == whole(
            es,
            put_together(pieces) + more,
        ),
    decreases pieces.len(),
{
    if pieces.len() == 0 {
        assert(Seq::<char>::empty() + more =~= more);
        assert(Seq::<char>::empty() + whole(es, more) =~= whole(es, more));
    } else {
        let before = fed(es, pieces.drop_last());
        let last = pieces.last();
        let step = stream_step(es, before.1 + last);
        lemma_fed(es, pieces.drop_last(), last + more);
        law_pieces_do_not_matter(es, before.1 + last, more);
        assert(before.1 + (last + more) =~= before.1 + last + more);
        assert(put_together(pieces.drop_last()) + (last + more) =~= put_together(pieces) + more);
        assert(before.0 + step.0 + whole(es, step.1 + more) =~= before.0 + (step.0 + whole(
            es,
            step.1 + more,
        )));
    }
}

/// However a text is cut into pieces, what a stream gives out for them and at the end is the
/// text with every tag in it replaced by what it stands for.
pub proof fn law_pieces_replace_tags(es: Seq<(Seq<char>, Seq<char>)>, pieces: Seq<Seq<char>>)
    requires
        tags_proper(es),
        tags_short(es),
    ensures
        fed(es, pieces).0 + fed(es, pieces).1 == substituted(es, put_together(pieces)),
        may_be_kept(fed(es, pieces).1),
{
    let none = Seq::<char>::empty();
    let kept = fed(es, pieces).1;
    lemma_fed(es, pieces, none);
    law_stream_replaces_tags(es, put_together(pieces));
    assert(put_together(pieces) + none =~= put_together(pieces));
    assert(kept + none =~= kept);
    if pieces.len() > 0 {
        law_little_is_kept(es, fed(es, pieces.drop_last()).1 + pieces.last());
    }
    // what is kept is kept again
    if kept.len() == 0 {
        lemma_find_char_none(kept, '[', 0);
        lemma_step_plain(es, kept, 0);
        assert(kept.skip(0) =~= kept);
    } else {
        lemma_find_char_unique(kept, '[', 0, 0);
        lemma_find_char_none(kept, ']', 0);
        assert(kept.skip(0) =~= kept);
        lemma_step_open(es, kept, 0, 0);
    }
    assert(whole(es, kept) =~= kept);
}

} // verus!
