//! Sorting by names, and finding the cheapest of several offers.

use vstd::prelude::*;

use crate::models::compare_chunks;
use crate::models::compare_texts;
use crate::models::law_names_are_ordered;
use crate::models::lemma_text_order;
use crate::models::name_order;
use crate::models::parse_sort_chunks;
use crate::models::text_order;
use crate::order::consistent;
use crate::order::is_stable_order;
use crate::order::stable_order;
use crate::text;

verus! {

// ---------------------------------------------------------------------------
// By names
// ---------------------------------------------------------------------------

/// Whether a place is one of some names.
pub open spec fn is_name(names: Seq<Seq<char>>, i: int) -> bool {
    0 <= i && i < names.len()
}

/// The order of model names, numbers in them by their value.
pub open spec fn by_name(names: Seq<Seq<char>>) -> spec_fn(int, int) -> bool {
    |i: int, j: int| name_order(names[i], names[j]) == 1
}

/// The order of model names, the last one first.
pub open spec fn by_name_down(names: Seq<Seq<char>>) -> spec_fn(int, int) -> bool {
    |i: int, j: int| name_order(names[j], names[i]) == 1
}

/// The order of texts, character by character.
pub open spec fn by_text(names: Seq<Seq<char>>) -> spec_fn(int, int) -> bool {
    |i: int, j: int| text_order(names[i], names[j], 0) == 1
}

fn name_after(names: &Vec<String>, i: usize, j: usize) -> (r: bool)
    requires
        is_name(text::views(names@), i as int),
        is_name(text::views(names@), j as int),
    ensures
        r == (name_order(text::views(names@)[i as int], text::views(names@)[j as int]) == 1),
{
    let a = parse_sort_chunks(names[i].as_str());
    let b = parse_sort_chunks(names[j].as_str());
    compare_chunks(&a, &b) == 1
}

fn text_after(names: &Vec<String>, i: usize, j: usize) -> (r: bool)
    requires
        is_name(text::views(names@), i as int),
        is_name(text::views(names@), j as int),
    ensures
        r == (text_order(text::views(names@)[i as int], text::views(names@)[j as int], 0) == 1),
{
    compare_texts(names[i].as_str(), names[j].as_str()) == 1
}

proof fn lemma_by_name(names: Seq<Seq<char>>)
    ensures
        consistent(by_name(names), names.len() as int),
        consistent(by_name_down(names), names.len() as int),
{
    let n = names.len() as int;
    let up = by_name(names);
    let down = by_name_down(names);
    assert forall|i: int, j: int| 0 <= i < n && 0 <= j < n && #[trigger] up(i, j) implies !up(
        j,
        i,
    ) by {
        law_names_are_ordered(names[i], names[j], names[j]);
    }
    assert forall|i: int, j: int, k: int|
        0 <= i < n && 0 <= j < n && 0 <= k < n && !#[trigger] up(i, j) && !#[trigger] up(
            j,
            k,
        ) implies !up(i, k) by {
        law_names_are_ordered(names[i], names[j], names[k]);
        law_names_are_ordered(names[j], names[k], names[k]);
        law_names_are_ordered(names[i], names[k], names[k]);
    }
    assert forall|i: int, j: int| 0 <= i < n && 0 <= j < n && #[trigger] down(i, j) implies !down(
        j,
        i,
    ) by {
        law_names_are_ordered(names[i], names[j], names[j]);
    }
    assert forall|i: int, j: int, k: int|
        0 <= i < n && 0 <= j < n && 0 <= k < n && !#[trigger] down(i, j) && !#[trigger] down(
            j,
            k,
        ) implies !down(i, k) by {
        law_names_are_ordered(names[k], names[j], names[i]);
        law_names_are_ordered(names[j], names[i], names[i]);
        law_names_are_ordered(names[k], names[i], names[i]);
    }
}

proof fn lemma_by_text(names: Seq<Seq<char>>)
    ensures
        consistent(by_text(names), names.len() as int),
{
    let n = names.len() as int;
    let gt = by_text(names);
    assert forall|i: int, j: int| 0 <= i < n && 0 <= j < n && #[trigger] gt(i, j) implies !gt(
        j,
        i,
    ) by {
        lemma_text_order(names[i], names[j], names[j], 0);
    }
    assert forall|i: int, j: int, k: int|
        0 <= i < n && 0 <= j < n && 0 <= k < n && !#[trigger] gt(i, j) && !#[trigger] gt(
            j,
            k,
        ) implies !gt(i, k) by {
        lemma_text_order(names[i], names[j], names[k], 0);
        lemma_text_order(names[j], names[k], names[k], 0);
        lemma_text_order(names[i], names[k], names[k], 0);
    }
}

/// The places of some names in the order of model names.
pub fn order_by_name(names: &Vec<String>) -> (p: Vec<usize>)
    ensures
        is_stable_order(p@, names@.len() as int, by_name(text::views(names@))),
{
    let ghost views = text::views(names@);
    proof {
        lemma_by_name(views);
    }
    let greater = |i: usize, j: usize| -> (b: bool)
        requires
            is_name(text::views(names@), i as int) && is_name(text::views(names@), j as int)
        ensures
            b == (name_order(text::views(names@)[i as int], text::views(names@)[j as int]) == 1)
    {
        name_after(names, i, j)
    };
    stable_order(names.len(), greater, Ghost(by_name(views)))
}

/// The places of some names in the order of model names, the last one first.
pub fn order_by_name_down(names: &Vec<String>) -> (p: Vec<usize>)
    ensures
        is_stable_order(p@, names@.len() as int, by_name_down(text::views(names@))),
{
    let ghost views = text::views(names@);
    proof {
        lemma_by_name(views);
    }
    let greater = |i: usize, j: usize| -> (b: bool)
        requires
            is_name(text::views(names@), i as int) && is_name(text::views(names@), j as int)
        ensures
            b == (name_order(text::views(names@)[j as int], text::views(names@)[i as int]) == 1)
    {
        name_after(names, j, i)
    };
    stable_order(names.len(), greater, Ghost(by_name_down(views)))
}

/// The places of some texts in their order, character by character.
pub fn order_by_text(names: &Vec<String>) -> (p: Vec<usize>)
    ensures
        is_stable_order(p@, names@.len() as int, by_text(text::views(names@))),
{
    let ghost views = text::views(names@);
    proof {
        lemma_by_text(views);
    }
    let greater = |i: usize, j: usize| -> (b: bool)
        requires
            is_name(text::views(names@), i as int) && is_name(text::views(names@), j as int)
        ensures
            b == (text_order(text::views(names@)[i as int], text::views(names@)[j as int], 0) == 1)
    {
        text_after(names, i, j)
    };
    stable_order(names.len(), greater, Ghost(by_text(views)))
}

// ---------------------------------------------------------------------------
// The cheapest offer
// ---------------------------------------------------------------------------

/// What an offer costs: for a prompt, and for a completion. A cost is a number that orders as
/// the price does; `None` stands for a price that compares with nothing.
#[derive(Debug, Clone, Copy, PartialEq, Eq, Structural)]
pub struct Cost {
    pub prompt: Option<u64>,
    pub completion: Option<u64>,
}

/// Whether a cost is lower than another.
pub open spec fn lower(a: Option<u64>, b: Option<u64>) -> bool {
    match (a, b) {
        (Some(x), Some(y)) => x < y,
        _ => false,
    }
}

/// Whether two costs are the same.
pub open spec fn level(a: Option<u64>, b: Option<u64>) -> bool {
    match (a, b) {
        (Some(x), Some(y)) => x == y,
        _ => false,
    }
}

/// Whether an offer is cheaper than another: by the prompt, and then by the completion.
pub open spec fn cheaper(a: Cost, b: Cost) -> bool {
    lower(a.prompt, b.prompt) || (level(a.prompt, b.prompt) && lower(a.completion, b.completion))
}

/// The place of the cheapest of the first `n` offers: the first, unless a later one is
/// cheaper.
pub open spec fn cheapest_of(costs: Seq<Cost>, n: int) -> Option<int>
    decreases n,
{
    if n <= 0 {
        None
    } else {
        match cheapest_of(costs, n - 1) {
            None => Some(n - 1),
            Some(b) => if cheaper(costs[n - 1], costs[b]) {
                Some(n - 1)
            } else {
                Some(b)
            },
        }
    }
}

fn is_lower(a: Option<u64>, b: Option<u64>) -> (r: bool)
    ensures
        r == lower(a, b),
{
    match (a, b) {
        (Some(x), Some(y)) => x < y,
        _ => false,
    }
}

fn is_level(a: Option<u64>, b: Option<u64>) -> (r: bool)
    ensures
        r == level(a, b),
{
    match (a, b) {
        (Some(x), Some(y)) => x == y,
        _ => false,
    }
}

/// Finds the cheapest offer.
pub fn cheapest(costs: &Vec<Cost>) -> (r: Option<usize>)
    ensures
        match r {
            Some(i) => i < costs@.len() && cheapest_of(costs@, costs@.len() as int) == Some(
                i as int,
            ),
            None => costs@.len() == 0,
        },
{
    if costs.len() == 0 {
        return None;
    }
    let mut best: usize = 0;
    let mut i: usize = 1;
    proof {
        assert(cheapest_of(costs@, 0) is None);
        assert(cheapest_of(costs@, 1) == Some(0int));
    }
    while i < costs.len()
        invariant
            1 <= i <= costs@.len(),
            best < i,
            cheapest_of(costs@, i as int) == Some(best as int),
        decreases costs@.len() - i,
    {
        let a = costs[i];
        let b = costs[best];
        if is_lower(a.prompt, b.prompt) || (is_level(a.prompt, b.prompt) && is_lower(
            a.completion,
            b.completion,
        )) {
            best = i;
        }
        i = i + 1;
    }
    Some(best)
}

/// No offer is cheaper than the one that is found, where all prices compare.
pub proof fn law_nothing_is_cheaper(costs: Seq<Cost>, n: int, i: int)
    requires
        0 <= i < n <= costs.len(),
        forall|j: int|
            0 <= j < n ==> (#[trigger] costs[j]).prompt is Some && costs[j].completion is Some,
    ensures
        cheapest_of(costs, n) matches Some(b) && 0 <= b < n && !cheaper(costs[i], costs[b]),
    decreases n,
{
    assert(costs[i].prompt is Some && costs[i].completion is Some);
    assert(costs[n - 1].prompt is Some && costs[n - 1].completion is Some);
    if n > 1 {
        if i < n - 1 {
            law_nothing_is_cheaper(costs, n - 1, i);
        } else {
            law_nothing_is_cheaper(costs, n - 1, 0);
        }
        let b = cheapest_of(costs, n - 1)->0;
        assert(costs[b].prompt is Some && costs[b].completion is Some);
    } else {
        assert(cheapest_of(costs, 0) is None);
    }
}

} // verus!
