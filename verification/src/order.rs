//! Sorting: stable, by a comparison of places.

use vstd::prelude::*;

verus! {

/// Whether `gt` compares places below `n` consistently: "greater" is one-sided, and "not
/// greater" carries over.
pub open spec fn consistent(gt: spec_fn(int, int) -> bool, n: int) -> bool {
    &&& forall|i: int, j: int|
        0 <= i < n && 0 <= j < n && #[trigger] gt(i, j) ==> !gt(j, i)
    &&& forall|i: int, j: int, k: int|
        0 <= i < n && 0 <= j < n && 0 <= k < n && !#[trigger] gt(i, j) && !#[trigger] gt(j, k)
            ==> !gt(i, k)
}

/// Whether place `x` comes before place `y`: it is not greater, and among equals it is the
/// earlier one.
pub open spec fn comes_before(gt: spec_fn(int, int) -> bool, x: int, y: int) -> bool {
    !gt(x, y) && (gt(y, x) || x < y)
}

/// Whether `p` lists each of the places below `n` once, in order, the earlier of two equals
/// first.
pub open spec fn is_stable_order(p: Seq<usize>, n: int, gt: spec_fn(int, int) -> bool) -> bool {
    &&& p.len() == n
    &&& forall|i: int| 0 <= i < n ==> #[trigger] p[i] < n
    &&& forall|x: int| 0 <= x < n ==> #[trigger] is_listed(p, x)
    &&& forall|i: int, j: int|
        0 <= i < j < n ==> comes_before(gt, #[trigger] p[i] as int, #[trigger] p[j] as int)
}

/// Whether `p` lists the place `x`.
pub open spec fn is_listed(p: Seq<usize>, x: int) -> bool {
    exists|i: int| 0 <= i < p.len() && p[i] == x
}

/// The places below `n` in the order that `greater` gives, the earlier of two equals first.
pub(crate) fn stable_order<F: Fn(usize, usize) -> bool>(
    n: usize,
    greater: F,
    Ghost(gt): Ghost<spec_fn(int, int) -> bool>,
) -> (p: Vec<usize>)
    requires
        consistent(gt, n as int),
        forall|i: usize, j: usize| i < n && j < n ==> call_requires(greater, (i, j)),
        forall|i: usize, j: usize, r: bool|
            i < n && j < n && call_ensures(greater, (i, j), r) ==> r == gt(i as int, j as int),
    ensures
        is_stable_order(p@, n as int, gt),
{
    let mut p: Vec<usize> = Vec::new();
    let mut k: usize = 0;
    while k < n
        invariant
            k <= n,
            consistent(gt, n as int),
            forall|i: usize, j: usize| i < n && j < n ==> call_requires(greater, (i, j)),
            forall|i: usize, j: usize, r: bool|
                i < n && j < n && call_ensures(greater, (i, j), r) ==> r == gt(
                    i as int,
                    j as int,
                ),
            is_stable_order(p@, k as int, gt),
        decreases n - k,
    {
        let mut pos: usize = p.len();
        let mut go = true;
        while go && pos > 0
            invariant
                k < n,
                pos <= p@.len(),
                consistent(gt, n as int),
                forall|i: usize, j: usize| i < n && j < n ==> call_requires(greater, (i, j)),
                forall|i: usize, j: usize, r: bool|
                    i < n && j < n && call_ensures(greater, (i, j), r) ==> r == gt(
                        i as int,
                        j as int,
                    ),
                is_stable_order(p@, k as int, gt),
                forall|i: int| pos <= i < p@.len() ==> gt(#[trigger] p@[i] as int, k as int),
                !go ==> pos > 0 && !gt(p@[pos - 1] as int, k as int),
            decreases pos, (if go { 1int } else { 0int }),
        {
            if greater(p[pos - 1], k) {
                pos = pos - 1;
            } else {
                go = false;
            }
        }
        let ghost before = p@;
        p.insert(pos, k);
        proof {
            let after = p@;
            assert(after =~= before.insert(pos as int, k));
            assert forall|i: int| 0 <= i < pos implies !gt(#[trigger] before[i] as int, k as int) by {
                if i < pos - 1 {
                    assert(comes_before(gt, before[i] as int, before[pos - 1] as int));
                }
            }
            assert forall|x: int| 0 <= x < k + 1 implies #[trigger] is_listed(after, x) by {
                if x == k {
                    assert(after[pos as int] == x);
                } else {
                    assert(is_listed(before, x));
                    let i = choose|i: int| 0 <= i < before.len() && before[i] == x;
                    if i < pos {
                        assert(after[i] == x);
                    } else {
                        assert(after[i + 1] == x);
                    }
                }
            }
            assert forall|i: int, j: int| 0 <= i < j < k + 1 implies comes_before(
                gt,
                #[trigger] after[i] as int,
                #[trigger] after[j] as int,
            ) by {
                if i == pos {
                    assert(after[j] == before[j - 1]);
                    assert(gt(before[j - 1] as int, k as int));
                } else if j == pos {
                    assert(after[i] == before[i]);
                    assert(!gt(before[i] as int, k as int));
                } else {
                    let i0 = if i < pos {
                        i
                    } else {
                        i - 1
                    };
                    let j0 = if j < pos {
                        j
                    } else {
                        j - 1
                    };
                    assert(after[i] == before[i0] && after[j] == before[j0]);
                }
            }
        }
        k = k + 1;
    }
    p
}

// ---------------------------------------------------------------------------
// By keys
// ---------------------------------------------------------------------------

/// Whether a place is among those of some keys.
pub open spec fn is_place(keys: Seq<u32>, i: int) -> bool {
    0 <= i && i < keys.len()
}

fn greater_key(keys: &Vec<u32>, i: usize, j: usize) -> (r: bool)
    requires
        is_place(keys@, i as int),
        is_place(keys@, j as int),
    ensures
        r == key_greater(keys@, i as int, j as int),
{
    keys[j] < keys[i]
}

/// Whether the key at a place is greater than that at another.
pub open spec fn key_greater(keys: Seq<u32>, i: int, j: int) -> bool {
    keys[j] < keys[i]
}

/// The order of some keys.
pub open spec fn by_key(keys: Seq<u32>) -> spec_fn(int, int) -> bool {
    |i: int, j: int| key_greater(keys, i, j)
}

/// The places of some keys in the order of the keys, the earlier of two equal keys first.
pub fn order_by_keys(keys: &Vec<u32>) -> (p: Vec<usize>)
    ensures
        is_stable_order(p@, keys@.len() as int, by_key(keys@)),
{
    let greater = |i: usize, j: usize| -> (b: bool)
        requires
            is_place(keys@, i as int) && is_place(keys@, j as int)
        ensures
            b == key_greater(keys@, i as int, j as int)
    {
        greater_key(keys, i, j)
    };
    stable_order(keys.len(), greater, Ghost(by_key(keys@)))
}

} // verus!
