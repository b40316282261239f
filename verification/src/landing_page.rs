//! The first page: which models are put forward on it.

use vstd::prelude::*;

use crate::i18n::Locale;
use crate::models_page::RenderModelItem;
use crate::models_page::Shown;
use crate::order::by_key;
use crate::order::is_stable_order;
use crate::order::order_by_keys;
use crate::ranking::by_name_down;
use crate::ranking::order_by_name_down;
use crate::selection::places;
use crate::selection::within;
use crate::table::entries;
use crate::table::lists;
use crate::text;
use crate::text::chars_of;
use crate::text::has_prefix;
use crate::text::string_of_all;
use crate::text::unicode_alphanumeric;
use crate::text::unicode_lowercase;

verus! {

/// What the first page shows.
pub struct IndexTemplate {
    pub locale: Locale,
    pub onion_site: String,
    pub featured_models: Vec<RenderModelItem>,
}

/// How many models the first page puts forward.
pub const FEATURED: usize = 6;

// ---------------------------------------------------------------------------
// Spellings of one model
// ---------------------------------------------------------------------------

/// The letters and digits of a text.
pub open spec fn letters_of(s: Seq<char>) -> Seq<char>
    decreases s.len(),
{
    if s.len() == 0 {
        seq![]
    } else {
        let before = letters_of(s.drop_last());
        if unicode_alphanumeric(s.last()) {
            before.push(s.last())
        } else {
            before
        }
    }
}

/// What the spellings of one model have in common: the letters and digits, in lower case.
pub open spec fn spelling(id: Seq<char>) -> Seq<char> {
    unicode_lowercase(letters_of(id))
}

/// Brings the spellings of one model together.
pub fn normalize_id(id: &str) -> (r: String)
    ensures
        r@ == spelling(id@),
{
    let v = chars_of(id);
    let mut out: Vec<char> = Vec::new();
    let mut i: usize = 0;
    proof {
        assert(id@.take(0) =~= seq![]);
    }
    while i < v.len()
        invariant
            v@ == id@,
            i <= v@.len(),
            out@ == letters_of(id@.take(i as int)),
        decreases v@.len() - i,
    {
        proof {
            assert(id@.take(i + 1).drop_last() =~= id@.take(i as int));
            assert(id@.take(i + 1).last() == v@[i as int]);
        }
        if v[i].is_alphanumeric() {
            out.push(v[i]);
        }
        i = i + 1;
    }
    proof {
        assert(id@.take(id@.len() as int) =~= id@);
    }
    let letters = string_of_all(out.as_slice());
    letters.as_str().to_lowercase()
}

// ---------------------------------------------------------------------------
// Picking
// ---------------------------------------------------------------------------

/// What has been picked so far: the places of models, and their spellings.
#[verifier::ext_equal]
pub struct Picked {
    pub places: Seq<int>,
    pub seen: Seq<Seq<char>>,
}

/// Picks up to `count` more out of some places, from the `k`th on: those whose spelling has
/// not been seen.
pub open spec fn picking(
    from: Seq<int>,
    k: int,
    count: int,
    ids: Seq<Seq<char>>,
    so_far: Picked,
) -> Picked
    decreases from.len() - k,
{
    if k < 0 || k >= from.len() || count <= 0 {
        so_far
    } else {
        let s = spelling(ids[from[k]]);
        if so_far.seen.contains(s) {
            picking(from, k + 1, count, ids, so_far)
        } else {
            picking(
                from,
                k + 1,
                count - 1,
                ids,
                Picked { places: so_far.places.push(from[k]), seen: so_far.seen.push(s) },
            )
        }
    }
}

/// What has been picked so far.
pub struct Picks {
    pub places: Vec<usize>,
    pub seen: Vec<String>,
}

impl Picks {
    /// What has been picked so far.
    pub open spec fn view(&self) -> Picked {
        Picked { places: places(self.places@), seen: text::views(self.seen@) }
    }
}

/// The identifiers of some models.
pub open spec fn ids_of(v: Seq<(Seq<char>, Shown)>) -> Seq<Seq<char>> {
    v.map_values(|e: (Seq<char>, Shown)| e.0)
}

fn pick(
    from: &Vec<usize>,
    count: usize,
    pool: &Vec<(String, RenderModelItem)>,
    picks: &mut Picks,
)
    requires
        within(from@, pool@.len() as int),
        within(old(picks).places@, pool@.len() as int),
    ensures
        final(picks)@ == picking(
            places(from@),
            0,
            count as int,
            ids_of(entries(pool@)),
            old(picks)@,
        ),
        within(final(picks).places@, pool@.len() as int),
{
    let ghost f = places(from@);
    let ghost ids = ids_of(entries(pool@));
    let ghost start = picks@;
    let mut left: usize = count;
    let mut k: usize = 0;
    while k < from.len() && left > 0
        invariant
            k <= from@.len(),
            within(from@, pool@.len() as int),
            within(picks.places@, pool@.len() as int),
            f == places(from@),
            ids == ids_of(entries(pool@)),
            picking(f, 0, count as int, ids, start) == picking(
                f,
                k as int,
                left as int,
                ids,
                picks@,
            ),
        decreases from@.len() - k,
    {
        let at: usize = from[k];
        proof {
            assert(from@[k as int] < pool@.len());
            assert(f[k as int] == at as int);
            assert(ids[at as int] == pool@[at as int].0@);
        }
        let s = normalize_id(pool[at].0.as_str());
        if !lists(&picks.seen, s.as_str()) {
            let ghost before = picks@;
            picks.places.push(at);
            picks.seen.push(s);
            proof {
                assert(picks@.places =~= before.places.push(at as int));
                assert(picks@.seen =~= before.seen.push(s@));
            }
            left = left - 1;
        }
        k = k + 1;
    }
}

/// The places of the models of a family: those whose identifiers start with its name.
pub open spec fn family(ids: Seq<Seq<char>>, prefix: Seq<char>, n: int) -> Seq<int>
    decreases n,
{
    if n <= 0 {
        seq![]
    } else {
        let before = family(ids, prefix, n - 1);
        if has_prefix(ids[n - 1], prefix) {
            before.push(n - 1)
        } else {
            before
        }
    }
}

/// The texts at some places.
pub open spec fn texts_at(ids: Seq<Seq<char>>, c: Seq<int>) -> Seq<Seq<char>> {
    c.map_values(|i: int| ids[i])
}

/// Whether some places are those of a family, the highest version first.
pub open spec fn latest_first(out: Seq<int>, ids: Seq<Seq<char>>, prefix: Seq<char>) -> bool {
    let c = family(ids, prefix, ids.len() as int);
    exists|p: Seq<usize>| #[trigger]
        is_stable_order(p, c.len() as int, by_name_down(texts_at(ids, c))) && out.len() == c.len()
            && forall|i: int| 0 <= i < c.len() ==> #[trigger] out[i] == c[p[i] as int]
}

fn family_latest_first(pool: &Vec<(String, RenderModelItem)>, prefix: &str) -> (r: Vec<usize>)
    ensures
        latest_first(places(r@), ids_of(entries(pool@)), prefix@),
        within(r@, pool@.len() as int),
{
    let ghost ids = ids_of(entries(pool@));
    let mut members: Vec<usize> = Vec::new();
    let mut names: Vec<String> = Vec::new();
    let mut i: usize = 0;
    proof {
        assert(places(members@) =~= family(ids, prefix@, 0));
        assert(text::views(names@) =~= texts_at(ids, places(members@)));
    }
    while i < pool.len()
        invariant
            i <= pool@.len(),
            ids == ids_of(entries(pool@)),
            places(members@) == family(ids, prefix@, i as int),
            within(members@, pool@.len() as int),
            text::views(names@) == texts_at(ids, places(members@)),
        decreases pool@.len() - i,
    {
        let ghost before = members@;
        let ghost named = text::views(names@);
        proof {
            assert(ids[i as int] == pool@[i as int].0@);
        }
        if text::starts_with(pool[i].0.as_str(), prefix) {
            members.push(i);
            names.push(pool[i].0.clone());
            proof {
                assert(places(members@) =~= places(before).push(i as int));
                assert(text::views(names@) =~= named.push(ids[i as int]));
                assert(texts_at(ids, places(members@)) =~= texts_at(ids, places(before)).push(
                    ids[i as int],
                ));
            }
        }
        i = i + 1;
    }
    proof {
        assert(ids.len() == pool@.len());
        assert(text::views(names@).len() == names@.len());
        assert(places(members@).len() == members@.len());
    }
    let p = order_by_name_down(&names);
    let ghost c = places(members@);
    let mut out: Vec<usize> = Vec::new();
    let mut k: usize = 0;
    while k < members.len()
        invariant
            k <= members@.len(),
            is_stable_order(p@, members@.len() as int, by_name_down(texts_at(ids, c))),
            within(members@, pool@.len() as int),
            within(out@, pool@.len() as int),
            out@.len() == k,
            forall|j: int| 0 <= j < k ==> #[trigger] out@[j] == members@[p@[j] as int],
        decreases members@.len() - k,
    {
        proof {
            assert(p@[k as int] < members@.len());
            assert(members@[p@[k as int] as int] < pool@.len());
        }
        out.push(members[p[k]]);
        k = k + 1;
    }
    proof {
        let o = places(out@);
        assert forall|j: int| 0 <= j < c.len() implies #[trigger] o[j] == c[p@[j] as int] by {
            assert(p@[j] < members@.len());
        }
        assert(is_stable_order(p@, c.len() as int, by_name_down(texts_at(ids, c))));
    }
    out
}

/// Picks up to `count` of the highest versions of a family.
pub fn add_latest_by_prefix(
    pool: &Vec<(String, RenderModelItem)>,
    prefix: &str,
    count: usize,
    picks: &mut Picks,
)
    requires
        within(old(picks).places@, pool@.len() as int),
    ensures
        within(final(picks).places@, pool@.len() as int),
        exists|order: Seq<int>| #[trigger]
            latest_first(order, ids_of(entries(pool@)), prefix@) && final(picks)@ == picking(
                order,
                0,
                count as int,
                ids_of(entries(pool@)),
                old(picks)@,
            ),
{
    let order = family_latest_first(pool, prefix);
    pick(&order, count, pool, picks);
    proof {
        assert(latest_first(places(order@), ids_of(entries(pool@)), prefix@));
    }
}

// ---------------------------------------------------------------------------
// The rest
// ---------------------------------------------------------------------------

/// The places of those models that make all three promises and whose spelling has not been
/// seen.
pub open spec fn private_rest(v: Seq<(Seq<char>, Shown)>, seen: Seq<Seq<char>>, n: int) -> Seq<int>
    decreases n,
{
    if n <= 0 {
        seq![]
    } else {
        let before = private_rest(v, seen, n - 1);
        let m = v[n - 1].1;
        if m.zdr && m.zds && m.tee && !seen.contains(spelling(v[n - 1].0)) {
            before.push(n - 1)
        } else {
            before
        }
    }
}

/// The keys by which places are ordered so that the highest rank comes first.
pub open spec fn rank_keys(c: Seq<int>, ranks: Seq<u32>) -> Seq<u32> {
    c.map_values(|i: int| (u32::MAX - ranks[i]) as u32)
}

/// Whether some places are those of the rest, the highest rank first.
pub open spec fn dearest_first(
    out: Seq<int>,
    v: Seq<(Seq<char>, Shown)>,
    seen: Seq<Seq<char>>,
    ranks: Seq<u32>,
) -> bool {
    let c = private_rest(v, seen, v.len() as int);
    exists|p: Seq<usize>| #[trigger]
        is_stable_order(p, c.len() as int, by_key(rank_keys(c, ranks))) && out.len() == c.len()
            && forall|i: int| 0 <= i < c.len() ==> #[trigger] out[i] == c[p[i] as int]
}

fn rest_dearest_first(
    pool: &Vec<(String, RenderModelItem)>,
    seen: &Vec<String>,
    ranks: &Vec<u32>,
) -> (r: Vec<usize>)
    requires
        ranks@.len() == pool@.len(),
    ensures
        dearest_first(places(r@), entries(pool@), text::views(seen@), ranks@),
        within(r@, pool@.len() as int),
{
    let ghost v = entries(pool@);
    let ghost s = text::views(seen@);
    let mut members: Vec<usize> = Vec::new();
    let mut keys: Vec<u32> = Vec::new();
    let mut i: usize = 0;
    proof {
        assert(places(members@) =~= private_rest(v, s, 0));
        assert(keys@ =~= rank_keys(places(members@), ranks@));
    }
    while i < pool.len()
        invariant
            i <= pool@.len(),
            ranks@.len() == pool@.len(),
            v == entries(pool@),
            s == text::views(seen@),
            places(members@) == private_rest(v, s, i as int),
            within(members@, pool@.len() as int),
            keys@ == rank_keys(places(members@), ranks@),
        decreases pool@.len() - i,
    {
        let ghost before = members@;
        let ghost keyed = keys@;
        let m = &pool[i].1;
        proof {
            assert(v[i as int] == (pool@[i as int].0@, pool@[i as int].1.deep_view()));
        }
        if m.zdr && m.zds && m.tee {
            let spelled = normalize_id(pool[i].0.as_str());
            if !lists(seen, spelled.as_str()) {
                members.push(i);
                keys.push(u32::MAX - ranks[i]);
                proof {
                    assert(places(members@) =~= places(before).push(i as int));
                    assert(rank_keys(places(members@), ranks@) =~= rank_keys(
                        places(before),
                        ranks@,
                    ).push((u32::MAX - ranks@[i as int]) as u32));
                }
            }
        }
        i = i + 1;
    }
    proof {
        assert(v.len() == pool@.len());
        assert(places(members@).len() == members@.len());
    }
    let p = order_by_keys(&keys);
    let ghost c = places(members@);
    let mut out: Vec<usize> = Vec::new();
    let mut k: usize = 0;
    while k < members.len()
        invariant
            k <= members@.len(),
            is_stable_order(p@, members@.len() as int, by_key(rank_keys(c, ranks@))),
            within(members@, pool@.len() as int),
            within(out@, pool@.len() as int),
            out@.len() == k,
            forall|j: int| 0 <= j < k ==> #[trigger] out@[j] == members@[p@[j] as int],
        decreases members@.len() - k,
    {
        proof {
            assert(p@[k as int] < members@.len());
            assert(members@[p@[k as int] as int] < pool@.len());
        }
        out.push(members[p[k]]);
        k = k + 1;
    }
    proof {
        let o = places(out@);
        assert forall|j: int| 0 <= j < c.len() implies #[trigger] o[j] == c[p@[j] as int] by {
            assert(p@[j] < members@.len());
        }
        assert(is_stable_order(p@, c.len() as int, by_key(rank_keys(c, ranks@))));
    }
    out
}

/// Whether some places are put forward: the two highest versions of each of two families, and
/// then, up to six in all, the models of the highest rank that make all three promises.
pub open spec fn is_featured(
    out: Seq<int>,
    v: Seq<(Seq<char>, Shown)>,
    ranks: Seq<u32>,
    glm: Seq<int>,
    kimi: Seq<int>,
    rest: Seq<int>,
) -> bool {
    let ids = ids_of(v);
    let none = Picked { places: seq![], seen: seq![] };
    let first = picking(glm, 0, 2, ids, none);
    let second = picking(kimi, 0, 2, ids, first);
    &&& latest_first(glm, ids, "glm"@)
    &&& latest_first(kimi, ids, "kimi"@)
    &&& dearest_first(rest, v, second.seen, ranks)
    &&& out == picking(rest, 0, FEATURED - second.places.len(), ids, second).places
}

/// Chooses the models that the first page puts forward, by their places. The ranks order the
/// models as their prices for completions do.
pub fn select_featured_models(pool: &Vec<(String, RenderModelItem)>, ranks: &Vec<u32>) -> (r: Vec<
    usize,
>)
    requires
        ranks@.len() == pool@.len(),
    ensures
        within(r@, pool@.len() as int),
        r@.len() <= FEATURED,
        exists|glm: Seq<int>, kimi: Seq<int>, rest: Seq<int>| #[trigger]
            is_featured(places(r@), entries(pool@), ranks@, glm, kimi, rest),
{
    let ghost v = entries(pool@);
    let ghost ids = ids_of(v);
    let mut picks = Picks { places: Vec::new(), seen: Vec::new() };
    let ghost none = Picked { places: seq![], seen: seq![] };
    proof {
        assert(picks@ =~= none);
    }
    add_latest_by_prefix(pool, "glm", 2, &mut picks);
    let ghost first = picks@;
    let ghost glm = choose|order: Seq<int>| #[trigger]
        latest_first(order, ids, "glm"@) && first == picking(order, 0, 2, ids, none);
    add_latest_by_prefix(pool, "kimi", 2, &mut picks);
    let ghost second = picks@;
    let ghost kimi = choose|order: Seq<int>| #[trigger]
        latest_first(order, ids, "kimi"@) && second == picking(order, 0, 2, ids, first);
    proof {
        lemma_picking(glm, 0, 2, ids, none);
        lemma_picking(kimi, 0, 2, ids, first);
        assert(second.places.len() == picks.places@.len());
    }
    let rest = rest_dearest_first(pool, &picks.seen, ranks);
    let left: usize = FEATURED - picks.places.len();
    pick(&rest, left, pool, &mut picks);
    proof {
        lemma_picking(places(rest@), 0, left as int, ids, second);
        assert(places(picks.places@).len() == picks.places@.len());
        assert(is_featured(
            places(picks.places@),
            v,
            ranks@,
            glm,
            kimi,
            places(rest@),
        ));
    }
    picks.places
}

/// How much is picked: no more than `count` more.
proof fn lemma_picking(from: Seq<int>, k: int, count: int, ids: Seq<Seq<char>>, so_far: Picked)
    requires
        0 <= count,
    ensures
        picking(from, k, count, ids, so_far).places.len() <= so_far.places.len() + count,
    decreases from.len() - k,
{
    if k < 0 || k >= from.len() || count <= 0 {
    } else {
        let s = spelling(ids[from[k]]);
        if so_far.seen.contains(s) {
            lemma_picking(from, k + 1, count, ids, so_far);
        } else {
            lemma_picking(
                from,
                k + 1,
                count - 1,
                ids,
                Picked { places: so_far.places.push(from[k]), seen: so_far.seen.push(s) },
            );
        }
    }
}

/// Whether what has been seen is the spellings of what has been picked, each once.
pub open spec fn is_tidy(p: Picked, ids: Seq<Seq<char>>) -> bool {
    &&& p.seen == p.places.map_values(|i: int| spelling(ids[i]))
    &&& p.seen.no_duplicates()
}

/// No model is picked twice, under whatever spelling.
pub proof fn law_no_model_is_picked_twice(
    from: Seq<int>,
    k: int,
    count: int,
    ids: Seq<Seq<char>>,
    so_far: Picked,
)
    requires
        is_tidy(so_far, ids),
    ensures
        is_tidy(picking(from, k, count, ids, so_far), ids),
    decreases from.len() - k,
{
    if k < 0 || k >= from.len() || count <= 0 {
    } else {
        let s = spelling(ids[from[k]]);
        if so_far.seen.contains(s) {
            law_no_model_is_picked_twice(from, k + 1, count, ids, so_far);
        } else {
            let next = Picked {
                places: so_far.places.push(from[k]),
                seen: so_far.seen.push(s),
            };
            assert(next.seen =~= next.places.map_values(|i: int| spelling(ids[i])));
            assert(next.seen.no_duplicates()) by {
                assert forall|i: int, j: int|
                    0 <= i < next.seen.len() && 0 <= j < next.seen.len() && i
                        != j implies next.seen[i] != next.seen[j] by {
                    if i == so_far.seen.len() {
                        assert(so_far.seen[j] == next.seen[j]);
                    } else if j == so_far.seen.len() {
                        assert(so_far.seen[i] == next.seen[i]);
                    }
                }
            }
            law_no_model_is_picked_twice(from, k + 1, count - 1, ids, next);
        }
    }
}

} // verus!
