//! What holds of cutting, joining and replacing texts.

use vstd::prelude::*;

use crate::provider_laws::lemma_found_behind;
use crate::provider_laws::lemma_stands_in;
use crate::provider_laws::stands_in;
use crate::text::find_char;
use crate::text::find_from;
use crate::text::joined;
use crate::text::lemma_find_char;
use crate::text::lemma_find_from;
use crate::text::occurs_at;
use crate::text::replaced;
use crate::text::split_on;
use crate::text::without_prefixes;
use crate::text::without_suffixes;

verus! {

/// The first occurrence of a text is replaced, then those behind it; a text in which it does
/// not stand stays.
pub proof fn law_occurrences_are_replaced(
    before: Seq<char>,
    p: Seq<char>,
    after: Seq<char>,
    w: Seq<char>,
)
    requires
        p.len() > 0,
    ensures
        !stands_in(p, before + p.drop_last()) ==> replaced(before + p + after, p, w) == before + w
            + replaced(after, p, w),
        !stands_in(p, before) ==> replaced(before, p, w) == before,
{
    if !stands_in(p, before + p.drop_last()) {
        let s = before + p + after;
        lemma_found_behind(before, p, after);
        assert(s.take(before.len() as int) =~= before);
        assert(s.skip((before.len() + p.len()) as int) =~= after);
    }
    if !stands_in(p, before) {
        lemma_stands_in(p, before);
        lemma_find_from(before, p, 0);
        match find_from(before, p, 0) {
            Some(i) => {
                assert(occurs_at(before, p, i));
            },
            None => {},
        }
    }
}

/// Where one character is replaced by another, every one of it is, and nothing else changes.
pub proof fn law_single_characters_are_replaced(s: Seq<char>, c: char, d: char)
    ensures
        replaced(s, seq![c], seq![d]).len() == s.len(),
        forall|i: int|
            0 <= i < s.len() ==> #[trigger] replaced(s, seq![c], seq![d])[i] == (if s[i] == c {
                d
            } else {
                s[i]
            }),
    decreases s.len(),
{
    let p = seq![c];
    let w = seq![d];
    lemma_find_from(s, p, 0);
    match find_from(s, p, 0) {
        Some(k) => {
            let rest = s.skip(k + 1);
            law_single_characters_are_replaced(rest, c, d);
            assert(s.subrange(k, k + 1)[0] == c);
            let r = replaced(s, p, w);
            assert(r == s.take(k) + w + replaced(rest, p, w));
            assert forall|i: int| 0 <= i < s.len() implies #[trigger] r[i] == (if s[i] == c {
                d
            } else {
                s[i]
            }) by {
                if i < k {
                    if s[i] == c {
                        assert(s.subrange(i, i + 1) =~= p);
                        assert(occurs_at(s, p, i));
                    }
                } else if i > k {
                    assert(r[i] == replaced(rest, p, w)[i - k - 1]);
                    assert(rest[i - k - 1] == s[i]);
                }
            }
        },
        None => {
            assert forall|i: int| 0 <= i < s.len() implies s[i] != c by {
                if s[i] == c {
                    assert(s.subrange(i, i + 1) =~= p);
                    assert(occurs_at(s, p, i));
                }
            }
        },
    }
}

/// Where a character is replaced by a text without it, none of it is left, and no other comes
/// in that was in neither text.
pub proof fn law_replaced_characters_are_gone(s: Seq<char>, c: char, w: Seq<char>, d: char)
    requires
        !w.contains(c),
        !w.contains(d),
    ensures
        !replaced(s, seq![c], w).contains(c),
        !s.contains(d) ==> !replaced(s, seq![c], w).contains(d),
    decreases s.len(),
{
    let p = seq![c];
    lemma_find_from(s, p, 0);
    let r = replaced(s, p, w);
    match find_from(s, p, 0) {
        Some(k) => {
            let rest = s.skip(k + 1);
            let later = replaced(rest, p, w);
            law_replaced_characters_are_gone(rest, c, w, d);
            assert(r == s.take(k) + w + later);
            if !s.contains(d) {
                assert(!rest.contains(d)) by {
                    if rest.contains(d) {
                        let i = choose|i: int| 0 <= i < rest.len() && rest[i] == d;
                        assert(s[i + k + 1] == d);
                    }
                }
            }
            assert forall|i: int| 0 <= i < r.len() implies r[i] != c && (!s.contains(d) ==> r[i]
                != d) by {
                if i < k {
                    assert(r[i] == s[i]);
                    assert(s.contains(s[i]));
                    if s[i] == c {
                        assert(s.subrange(i, i + 1) =~= p);
                        assert(occurs_at(s, p, i));
                    }
                } else if i < k + w.len() {
                    assert(r[i] == w[i - k]);
                    assert(w.contains(w[i - k]));
                } else {
                    assert(r[i] == later[i - k - w.len()]);
                    assert(later.contains(later[i - k - w.len()]));
                }
            }
        },
        None => {
            assert forall|i: int| 0 <= i < s.len() implies s[i] != c by {
                if s[i] == c {
                    assert(s.subrange(i, i + 1) =~= p);
                    assert(occurs_at(s, p, i));
                }
            }
        },
    }
}

/// The pieces between the occurrences of a character hold none of it, and joined by it they
/// are the whole again.
pub proof fn law_pieces_make_the_whole(s: Seq<char>, c: char)
    ensures
        joined(split_on(s, c), seq![c]) == s,
        split_on(s, c).len() >= 1,
        forall|k: int, i: int|
            0 <= k < split_on(s, c).len() && 0 <= i < split_on(s, c)[k].len()
                ==> #[trigger] split_on(s, c)[k][i] != c,
    decreases s.len(),
{
    lemma_find_char(s, c, 0);
    let all = split_on(s, c);
    match find_char(s, c, 0) {
        Some(n) => {
            let rest = s.skip(n + 1);
            let more = split_on(rest, c);
            law_pieces_make_the_whole(rest, c);
            assert(all == seq![s.take(n)] + more);
            lemma_joined_front(s.take(n), more, seq![c]);
            assert(s.take(n) + seq![c] + rest =~= s);
            assert forall|k: int, i: int|
                0 <= k < all.len() && 0 <= i < all[k].len() implies #[trigger] all[k][i] != c by {
                if k == 0 {
                    assert(all[0][i] == s[i]);
                } else {
                    assert(all[k] == more[k - 1]);
                    assert(more[k - 1][i] != c);
                }
            }
        },
        None => {
            assert(all.drop_last() =~= Seq::<Seq<char>>::empty());
            reveal_with_fuel(joined, 2);
            assert(joined(all, seq![c]) =~= s);
        },
    }
}

proof fn lemma_joined_front(first: Seq<char>, more: Seq<Seq<char>>, sep: Seq<char>)
    requires
        more.len() > 0,
    ensures
        joined(seq![first] + more, sep) == first + sep + joined(more, sep),
    decreases more.len(),
{
    let all = seq![first] + more;
    reveal_with_fuel(joined, 3);
    if more.len() == 1 {
        assert(all.drop_last() =~= seq![first]);
        assert(seq![first].drop_last() =~= Seq::<Seq<char>>::empty());
        assert(more.drop_last() =~= Seq::<Seq<char>>::empty());
        assert(all.last() == more.last());
        assert(joined(all, sep) =~= first + sep + joined(more, sep));
    } else {
        lemma_joined_front(first, more.drop_last(), sep);
        assert(all.drop_last() =~= seq![first] + more.drop_last());
        assert(all.last() == more.last());
        assert(joined(all, sep) =~= first + sep + joined(more, sep));
    }
}

/// Every copy of a text at an end is taken off, and nothing is where there is none.
pub proof fn law_copies_at_the_ends_go(s: Seq<char>, p: Seq<char>)
    requires
        p.len() > 0,
    ensures
        without_suffixes(s + p, p) == without_suffixes(s, p),
        without_prefixes(p + s, p) == without_prefixes(s, p),
        (forall|head: Seq<char>| s != #[trigger] (head + p)) ==> without_suffixes(s, p) == s,
        (forall|tail: Seq<char>| s != #[trigger] (p + tail)) ==> without_prefixes(s, p) == s,
{
    let a = s + p;
    let b = p + s;
    assert(a.subrange(a.len() - p.len(), a.len() as int) =~= p);
    assert(a.take(a.len() - p.len()) =~= s);
    assert(b.subrange(0, p.len() as int) =~= p);
    assert(b.skip(p.len() as int) =~= s);
    if without_suffixes(s, p) != s {
        assert(s =~= s.take(s.len() - p.len()) + p);
    }
    if without_prefixes(s, p) != s {
        assert(s =~= p + s.skip(p.len() as int));
    }
}

} // verus!
