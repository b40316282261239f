//! Choosing providers for a request, and what is told of those that fail.

use vstd::prelude::*;

use crate::admission::header_is;
use crate::admission::open_request;
use crate::admission::passthrough_key;
use crate::admission::passthrough_outcome;
use crate::admission::refuse;
use crate::admission::request_outcome;
use crate::admission::session_facts;
use crate::admission::Admitted;
use crate::admission::Refusal;
use crate::admission::Refused;
use crate::chat::said_in;
use crate::chat::same_wishes;
use crate::chat::switch_under_encryption;
use crate::chat::switches_text;
use crate::chat::ChatCompletionRequest;
use crate::crypto_e2ee::E2eeSession;
use crate::crypto_e2ee::TicketSecrets;
use crate::health::failure_label;
use crate::health::label_of;
use crate::health::Failure;
use crate::order::by_key;
use crate::order::is_stable_order;
use crate::order::order_by_keys;
use crate::state::ProviderConfig;
use crate::table;
use crate::table::entries;
use crate::table::entry_of;
use crate::table::lemma_texts_view;
use crate::text;
use crate::text::text_eq;
use crate::text::unicode_lowercase;

verus! {

// ---------------------------------------------------------------------------
// Who offers the model
// ---------------------------------------------------------------------------

/// What a choice goes by: the name of a provider, how it rates, and what it promises.
#[verifier::ext_equal]
pub struct Offer {
    pub id: Seq<char>,
    pub rating: u8,
    pub zdr: bool,
    pub zds: bool,
    pub tee: bool,
}

/// What a choice goes by.
pub open spec fn offer_of(p: ProviderConfig) -> Offer {
    Offer { id: p.id@, rating: p.privacy_rating, zdr: p.zdr, zds: p.zds, tee: p.tee }
}

/// What a choice goes by, of each provider.
pub open spec fn offers_of(v: Seq<ProviderConfig>) -> Seq<Offer> {
    v.map_values(|p: ProviderConfig| offer_of(p))
}

/// The first provider, at or after `from`, of a name.
pub open spec fn provider_named(v: Seq<Offer>, id: Seq<char>, from: int) -> Option<int>
    decreases v.len() - from,
{
    if from < 0 || from >= v.len() {
        None
    } else if v[from].id == id {
        Some(from)
    } else {
        provider_named(v, id, from + 1)
    }
}

/// What a request asks of a provider: each switch that is on, and the one provider that can
/// read what is encrypted to its enclaves.
#[derive(Debug, Clone, Copy, PartialEq, Eq, Structural)]
pub struct Demands {
    pub zdr: Option<bool>,
    pub zds: Option<bool>,
    pub tee: Option<bool>,
    pub passing: bool,
}

/// Whether a provider meets what a request asks.
pub open spec fn meets(p: Offer, d: Demands) -> bool {
    &&& d.zdr == Some(true) ==> p.zdr
    &&& d.zds == Some(true) ==> p.zds
    &&& d.tee == Some(true) ==> p.tee
    &&& d.passing ==> p.id == "near-ai"@
}

/// Those of some named providers that exist and meet what a request asks, by their places.
pub open spec fn fit(ids: Seq<Seq<char>>, v: Seq<Offer>, d: Demands) -> Seq<int>
    decreases ids.len(),
{
    if ids.len() == 0 {
        seq![]
    } else {
        let before = fit(ids.drop_last(), v, d);
        match provider_named(v, ids.last(), 0) {
            Some(i) => if meets(v[i], d) {
                before.push(i)
            } else {
                before
            },
            None => before,
        }
    }
}

/// Some places.
pub open spec fn places(v: Seq<usize>) -> Seq<int> {
    v.map_values(|i: usize| i as int)
}

/// Whether some places are all places of providers.
pub open spec fn within(v: Seq<usize>, n: int) -> bool {
    forall|i: int| 0 <= i < v.len() ==> #[trigger] v[i] < n
}

/// Finds the first provider of a name.
pub fn find_provider(v: &Vec<ProviderConfig>, id: &str) -> (r: Option<usize>)
    ensures
        match r {
            Some(i) => i < v@.len() && provider_named(offers_of(v@), id@, 0) == Some(i as int),
            None => provider_named(offers_of(v@), id@, 0) is None,
        },
{
    let ghost all = offers_of(v@);
    let mut i: usize = 0;
    while i < v.len()
        invariant
            i <= v@.len(),
            all == offers_of(v@),
            provider_named(all, id@, 0) == provider_named(all, id@, i as int),
        decreases v@.len() - i,
    {
        if text_eq(v[i].id.as_str(), id) {
            return Some(i);
        }
        i = i + 1;
    }
    None
}

fn meets_demands(p: &ProviderConfig, d: &Demands) -> (r: bool)
    ensures
        r == meets(offer_of(*p), *d),
{
    let zdr = match d.zdr {
        Some(true) => p.zdr,
        _ => true,
    };
    let zds = match d.zds {
        Some(true) => p.zds,
        _ => true,
    };
    let tee = match d.tee {
        Some(true) => p.tee,
        _ => true,
    };
    zdr && zds && tee && (!d.passing || text_eq(p.id.as_str(), "near-ai"))
}

fn find_fit(ids: &Vec<String>, v: &Vec<ProviderConfig>, d: &Demands) -> (r: Vec<usize>)
    ensures
        places(r@) == fit(text::views(ids@), offers_of(v@), *d),
        within(r@, v@.len() as int),
{
    let ghost all = text::views(ids@);
    let ghost offers = offers_of(v@);
    let mut out: Vec<usize> = Vec::new();
    let mut i: usize = 0;
    proof {
        assert(all.take(0) =~= seq![]);
        assert(places(out@) =~= seq![]);
    }
    while i < ids.len()
        invariant
            i <= ids@.len(),
            all == text::views(ids@),
            offers == offers_of(v@),
            places(out@) == fit(all.take(i as int), offers, *d),
            within(out@, v@.len() as int),
        decreases ids@.len() - i,
    {
        let ghost before = out@;
        proof {
            assert(all.take(i + 1).drop_last() =~= all.take(i as int));
            assert(all.take(i + 1).last() == ids@[i as int]@);
        }
        if let Some(k) = find_provider(v, ids[i].as_str()) {
            proof {
                assert(offers[k as int] == offer_of(v@[k as int]));
            }
            if meets_demands(&v[k], d) {
                out.push(k);
                proof {
                    assert(places(out@) =~= places(before).push(k as int));
                }
            }
        }
        i = i + 1;
    }
    proof {
        assert(all.take(all.len() as int) =~= all);
    }
    out
}

// ---------------------------------------------------------------------------
// Whom the client wants
// ---------------------------------------------------------------------------

/// The first of some places, at or after `from`, of a provider of a name.
pub open spec fn wanted_at(c: Seq<int>, v: Seq<Offer>, id: Seq<char>, from: int) -> Option<int>
    decreases c.len() - from,
{
    if from < 0 || from >= c.len() {
        None
    } else if v[c[from]].id == id {
        Some(c[from])
    } else {
        wanted_at(c, v, id, from + 1)
    }
}

/// Those of some places whose providers a list does not name.
pub open spec fn unnamed(c: Seq<int>, v: Seq<Offer>, list: Seq<Seq<char>>) -> Seq<int>
    decreases c.len(),
{
    if c.len() == 0 {
        seq![]
    } else {
        let before = unnamed(c.drop_last(), v, list);
        if list.contains(v[c.last()].id) {
            before
        } else {
            before.push(c.last())
        }
    }
}

/// The providers that the first `n` names of a list stand for, or the first name that stands
/// for none. The name "others" stands for all that the list does not name.
pub open spec fn wanted(
    list: Seq<Seq<char>>,
    n: int,
    c: Seq<int>,
    v: Seq<Offer>,
) -> Result<Seq<int>, Seq<char>>
    decreases n,
{
    if n <= 0 {
        Ok(seq![])
    } else {
        match wanted(list, n - 1, c, v) {
            Err(e) => Err(e),
            Ok(before) => if list[n - 1] == "others"@ {
                Ok(before + unnamed(c, v, list))
            } else {
                match wanted_at(c, v, list[n - 1], 0) {
                    Some(i) => Ok(before.push(i)),
                    None => Err(list[n - 1]),
                }
            },
        }
    }
}

fn find_wanted(c: &Vec<usize>, v: &Vec<ProviderConfig>, id: &str) -> (r: Option<usize>)
    requires
        within(c@, v@.len() as int),
    ensures
        match r {
            Some(i) => i < v@.len() && wanted_at(places(c@), offers_of(v@), id@, 0) == Some(
                i as int,
            ),
            None => wanted_at(places(c@), offers_of(v@), id@, 0) is None,
        },
{
    let ghost at = places(c@);
    let ghost offers = offers_of(v@);
    let mut i: usize = 0;
    while i < c.len()
        invariant
            i <= c@.len(),
            within(c@, v@.len() as int),
            at == places(c@),
            offers == offers_of(v@),
            wanted_at(at, offers, id@, 0) == wanted_at(at, offers, id@, i as int),
        decreases c@.len() - i,
    {
        let k: usize = c[i];
        proof {
            assert(c@[i as int] < v@.len());
            assert(at[i as int] == k as int);
            assert(offers[k as int] == offer_of(v@[k as int]));
        }
        if text_eq(v[k].id.as_str(), id) {
            return Some(k);
        }
        i = i + 1;
    }
    None
}

fn find_unnamed(c: &Vec<usize>, v: &Vec<ProviderConfig>, list: &Vec<String>) -> (r: Vec<usize>)
    requires
        within(c@, v@.len() as int),
    ensures
        places(r@) == unnamed(places(c@), offers_of(v@), text::views(list@)),
        within(r@, v@.len() as int),
{
    let ghost at = places(c@);
    let ghost offers = offers_of(v@);
    let mut out: Vec<usize> = Vec::new();
    let mut i: usize = 0;
    proof {
        assert(at.take(0) =~= seq![]);
        assert(places(out@) =~= seq![]);
    }
    while i < c.len()
        invariant
            i <= c@.len(),
            within(c@, v@.len() as int),
            within(out@, v@.len() as int),
            at == places(c@),
            offers == offers_of(v@),
            places(out@) == unnamed(at.take(i as int), offers, text::views(list@)),
        decreases c@.len() - i,
    {
        let k: usize = c[i];
        let ghost before = out@;
        proof {
            assert(c@[i as int] < v@.len());
            assert(at.take(i + 1).drop_last() =~= at.take(i as int));
            assert(at.take(i + 1).last() == k as int);
            assert(offers[k as int] == offer_of(v@[k as int]));
        }
        if !table::lists(list, v[k].id.as_str()) {
            out.push(k);
            proof {
                assert(places(out@) =~= places(before).push(k as int));
            }
        }
        i = i + 1;
    }
    proof {
        assert(at.take(at.len() as int) =~= at);
    }
    out
}

fn find_all_wanted(list: &Vec<String>, c: &Vec<usize>, v: &Vec<ProviderConfig>) -> (r: Result<
    Vec<usize>,
    String,
>)
    requires
        within(c@, v@.len() as int),
    ensures
        match r {
            Ok(w) => wanted(
                text::views(list@),
                list@.len() as int,
                places(c@),
                offers_of(v@),
            ) == Ok::<Seq<int>, Seq<char>>(places(w@)) && within(w@, v@.len() as int),
            Err(id) => wanted(
                text::views(list@),
                list@.len() as int,
                places(c@),
                offers_of(v@),
            ) == Err::<Seq<int>, Seq<char>>(id@),
        },
{
    let ghost names = text::views(list@);
    let ghost at = places(c@);
    let ghost offers = offers_of(v@);
    let mut out: Vec<usize> = Vec::new();
    let mut i: usize = 0;
    proof {
        assert(places(out@) =~= seq![]);
    }
    while i < list.len()
        invariant
            i <= list@.len(),
            within(c@, v@.len() as int),
            within(out@, v@.len() as int),
            names == text::views(list@),
            at == places(c@),
            offers == offers_of(v@),
            wanted(names, i as int, at, offers) == Ok::<Seq<int>, Seq<char>>(places(out@)),
        decreases list@.len() - i,
    {
        let ghost before = out@;
        proof {
            assert(names[i as int] == list@[i as int]@);
        }
        if text_eq(list[i].as_str(), "others") {
            let more = find_unnamed(c, v, list);
            let mut k: usize = 0;
            while k < more.len()
                invariant
                    k <= more@.len(),
                    within(more@, v@.len() as int),
                    within(out@, v@.len() as int),
                    out@ == before + more@.take(k as int),
                decreases more@.len() - k,
            {
                proof {
                    assert(more@[k as int] < v@.len());
                    assert(before + more@.take(k + 1) =~= (before + more@.take(k as int)).push(
                        more@[k as int],
                    ));
                }
                out.push(more[k]);
                k = k + 1;
            }
            proof {
                assert(more@.take(more@.len() as int) =~= more@);
                assert(places(out@) =~= places(before) + places(more@));
            }
        } else {
            match find_wanted(c, v, list[i].as_str()) {
                Some(k) => {
                    out.push(k);
                    proof {
                        assert(places(out@) =~= places(before).push(k as int));
                    }
                },
                None => {
                    proof {
                        lemma_wanted_fails(names, i + 1, list@.len() as int, at, offers);
                    }
                    return Err(list[i].clone());
                },
            }
        }
        i = i + 1;
    }
    Ok(out)
}

proof fn lemma_wanted_fails(list: Seq<Seq<char>>, n: int, m: int, c: Seq<int>, v: Seq<Offer>)
    requires
        0 < n <= m,
        wanted(list, n, c, v) is Err,
    ensures
        wanted(list, m, c, v) == wanted(list, n, c, v),
    decreases m - n,
{
    if n < m {
        lemma_wanted_fails(list, n, m - 1, c, v);
    }
}

// ---------------------------------------------------------------------------
// The choice
// ---------------------------------------------------------------------------

/// The providers that a request may go to, by their places, in the order in which they were
/// found or named; or why there is none.
pub open spec fn choice_of(
    model: Seq<char>,
    routes: Seq<(Seq<char>, Seq<Seq<char>>)>,
    v: Seq<Offer>,
    d: Demands,
    list: Option<Seq<Seq<char>>>,
) -> Result<Seq<int>, Refused> {
    match entry_of(routes, model) {
        None => Err(Refused { status: 400, message: "Unsupported model: "@ + model }),
        Some(ids) => {
            let found = fit(ids, v, d);
            if d.passing && found.len() == 0 {
                Err(
                    Refused {
                        status: 400,
                        message: "X-NearAI-E2EE-Enabled requires a model supported by the 'near-ai' provider."@,
                    },
                )
            } else {
                let chosen = match list {
                    Some(names) => wanted(names, names.len() as int, found, v),
                    None => Ok(found),
                };
                match chosen {
                    Err(id) => Err(
                        Refused {
                            status: 400,
                            message: "Requested provider '"@ + id + "' does not exist."@,
                        },
                    ),
                    Ok(c) => if c.len() == 0 {
                        Err(
                            Refused {
                                status: 400,
                                message: "No AI providers match your provider requirements."@,
                            },
                        )
                    } else {
                        Ok(c)
                    },
                }
            }
        },
    }
}

/// A list of names, if there is one.
pub open spec fn names_in(list: Option<Vec<String>>) -> Option<Seq<Seq<char>>> {
    match list {
        Some(v) => Some(text::views(v@)),
        None => None,
    }
}

/// Chooses the providers that a request may go to. `model` is the model's name in lower case.
pub fn choose_providers(
    model: &str,
    routes: &Vec<(String, Vec<String>)>,
    providers: &Vec<ProviderConfig>,
    demands: &Demands,
    list: &Option<Vec<String>>,
) -> (r: Result<Vec<usize>, Refusal>)
    ensures
        match r {
            Ok(c) => choice_of(
                model@,
                entries(routes@),
                offers_of(providers@),
                *demands,
                names_in(*list),
            ) == Ok::<Seq<int>, Refused>(places(c@)) && within(c@, providers@.len() as int)
                && c@.len() > 0,
            Err(e) => choice_of(
                model@,
                entries(routes@),
                offers_of(providers@),
                *demands,
                names_in(*list),
            ) == Err::<Seq<int>, Refused>(e@),
        },
{
    let ids = match table::lookup(routes, model) {
        Some(ids) => ids,
        None => {
            let message = text::cat2("Unsupported model: ", model);
            return Err(refuse(400, message.as_str()));
        },
    };
    proof {
        lemma_texts_view(*ids);
    }
    let found = find_fit(ids, providers, demands);
    proof {
        assert(places(found@).len() == found@.len());
    }
    if demands.passing && found.len() == 0 {
        return Err(
            refuse(
                400,
                "X-NearAI-E2EE-Enabled requires a model supported by the 'near-ai' provider.",
            ),
        );
    }
    let chosen = match list {
        Some(names) => match find_all_wanted(names, &found, providers) {
            Ok(c) => c,
            Err(id) => {
                let message = text::cat3(
                    "Requested provider '",
                    id.as_str(),
                    "' does not exist.",
                );
                return Err(refuse(400, message.as_str()));
            },
        },
        None => found,
    };
    proof {
        assert(places(chosen@).len() == chosen@.len());
    }
    if chosen.len() == 0 {
        return Err(refuse(400, "No AI providers match your provider requirements."));
    }
    Ok(chosen)
}

proof fn lemma_fit(ids: Seq<Seq<char>>, v: Seq<Offer>, d: Demands, k: int)
    requires
        0 <= k < fit(ids, v, d).len(),
    ensures
        meets(v[fit(ids, v, d)[k]], d),
    decreases ids.len(),
{
    if ids.len() > 0 {
        let before = fit(ids.drop_last(), v, d);
        if k < before.len() {
            lemma_fit(ids.drop_last(), v, d, k);
        }
    }
}

proof fn lemma_wanted_at(c: Seq<int>, v: Seq<Offer>, id: Seq<char>, from: int)
    requires
        0 <= from,
    ensures
        wanted_at(c, v, id, from) matches Some(x) ==> c.contains(x),
    decreases c.len() - from,
{
    if from < c.len() {
        if v[c[from]].id == id {
            assert(c[from] == wanted_at(c, v, id, from)->0);
        } else {
            lemma_wanted_at(c, v, id, from + 1);
        }
    }
}

proof fn lemma_unnamed(c: Seq<int>, v: Seq<Offer>, list: Seq<Seq<char>>, k: int)
    requires
        0 <= k < unnamed(c, v, list).len(),
    ensures
        c.contains(unnamed(c, v, list)[k]),
    decreases c.len(),
{
    if c.len() > 0 {
        let before = unnamed(c.drop_last(), v, list);
        if k < before.len() {
            lemma_unnamed(c.drop_last(), v, list, k);
            let j = choose|j: int| 0 <= j < c.drop_last().len() && c.drop_last()[j] == before[k];
            assert(c[j] == before[k]);
        } else {
            assert(c[c.len() - 1] == c.last());
        }
    }
}

proof fn lemma_wanted(list: Seq<Seq<char>>, n: int, c: Seq<int>, v: Seq<Offer>, k: int)
    requires
        wanted(list, n, c, v) is Ok,
        0 <= k < wanted(list, n, c, v)->Ok_0.len(),
    ensures
        c.contains(wanted(list, n, c, v)->Ok_0[k]),
    decreases n,
{
    if n > 0 {
        let before = wanted(list, n - 1, c, v)->Ok_0;
        if k < before.len() {
            lemma_wanted(list, n - 1, c, v, k);
        } else if list[n - 1] == "others"@ {
            lemma_unnamed(c, v, list, k - before.len());
        } else {
            lemma_wanted_at(c, v, list[n - 1], 0);
        }
    }
}

/// No request goes to a provider that does not meet each switch that is on; and what is
/// encrypted to an enclave goes to the one provider that can read it, whomever the client
/// names.
pub proof fn law_chosen_providers_meet_the_demands(
    model: Seq<char>,
    routes: Seq<(Seq<char>, Seq<Seq<char>>)>,
    v: Seq<Offer>,
    d: Demands,
    list: Option<Seq<Seq<char>>>,
    k: int,
)
    requires
        choice_of(model, routes, v, d, list) is Ok,
        0 <= k < choice_of(model, routes, v, d, list)->Ok_0.len(),
    ensures
        meets(v[choice_of(model, routes, v, d, list)->Ok_0[k]], d),
{
    let found = fit(entry_of(routes, model)->0, v, d);
    let chosen = choice_of(model, routes, v, d, list)->Ok_0;
    match list {
        Some(names) => {
            lemma_wanted(names, names.len() as int, found, v, k);
            let j = choose|j: int| 0 <= j < found.len() && found[j] == chosen[k];
            lemma_fit(entry_of(routes, model)->0, v, d, j);
        },
        None => {
            lemma_fit(entry_of(routes, model)->0, v, d, k);
        },
    }
}

// ---------------------------------------------------------------------------
// The order of tries
// ---------------------------------------------------------------------------

/// How the chosen providers are ordered.
#[derive(Debug, Clone, Copy, PartialEq, Eq, Structural)]
pub enum Arrangement {
    /// The best rating first.
    ByRating,
    /// As the client named them.
    AsNamed,
    /// By chance.
    Shuffled,
}

/// How the chosen providers are ordered: as the client prefers, else as it named them, else
/// by chance.
pub open spec fn arrangement_of(preference: Option<Seq<char>>, named: bool) -> Arrangement {
    match preference {
        Some(p) => if p == "privacy_rating"@ {
            Arrangement::ByRating
        } else {
            Arrangement::Shuffled
        },
        None => if named {
            Arrangement::AsNamed
        } else {
            Arrangement::Shuffled
        },
    }
}

/// Decides how the chosen providers are ordered.
pub fn arrangement(preference: &Option<String>, named: bool) -> (r: Arrangement)
    ensures
        r == arrangement_of(
            match *preference {
                Some(p) => Some(p@),
                None => None,
            },
            named,
        ),
{
    match preference {
        Some(p) => {
            if text_eq(p.as_str(), "privacy_rating") {
                Arrangement::ByRating
            } else {
                Arrangement::Shuffled
            }
        },
        None => {
            if named {
                Arrangement::AsNamed
            } else {
                Arrangement::Shuffled
            }
        },
    }
}

/// The keys by which places are ordered so that the best rating comes first.
pub open spec fn rating_keys(c: Seq<int>, v: Seq<Offer>) -> Seq<u32> {
    c.map_values(|i: int| (255 - v[i].rating) as u32)
}

/// Whether some places are others in the order of their keys, the earlier of two with equal
/// keys first.
pub open spec fn sorted_by(out: Seq<int>, c: Seq<int>, keys: Seq<u32>) -> bool {
    exists|p: Seq<usize>| #[trigger]
        is_stable_order(p, c.len() as int, by_key(keys)) && out.len() == c.len() && forall|i: int|
            0 <= i < c.len() ==> #[trigger] out[i] == c[p[i] as int]
}

/// Puts the chosen providers in order. `keys` are drawn by chance, one for each.
pub fn arrange(
    chosen: &Vec<usize>,
    providers: &Vec<ProviderConfig>,
    how: Arrangement,
    keys: &Vec<u32>,
) -> (r: Vec<usize>)
    requires
        within(chosen@, providers@.len() as int),
        keys@.len() == chosen@.len(),
    ensures
        within(r@, providers@.len() as int),
        match how {
            Arrangement::ByRating => sorted_by(
                places(r@),
                places(chosen@),
                rating_keys(places(chosen@), offers_of(providers@)),
            ),
            Arrangement::AsNamed => places(r@) == places(chosen@),
            Arrangement::Shuffled => sorted_by(places(r@), places(chosen@), keys@),
        },
{
    let ghost c = places(chosen@);
    let ghost offers = offers_of(providers@);
    let mut own: Vec<u32> = Vec::new();
    let mut i: usize = 0;
    while i < chosen.len()
        invariant
            i <= chosen@.len(),
            within(chosen@, providers@.len() as int),
            keys@.len() == chosen@.len(),
            c == places(chosen@),
            offers == offers_of(providers@),
            own@.len() == i,
            forall|j: int|
                0 <= j < i ==> #[trigger] own@[j] == (match how {
                    Arrangement::ByRating => rating_keys(c, offers)[j],
                    Arrangement::AsNamed => 0u32,
                    Arrangement::Shuffled => keys@[j],
                }),
        decreases chosen@.len() - i,
    {
        let k: usize = chosen[i];
        proof {
            assert(chosen@[i as int] < providers@.len());
            assert(offers[k as int] == offer_of(providers@[k as int]));
        }
        match how {
            Arrangement::ByRating => {
                let rating: u8 = providers[k].privacy_rating;
                own.push((255 - rating) as u32);
            },
            Arrangement::AsNamed => {
                own.push(0);
            },
            Arrangement::Shuffled => {
                own.push(keys[i]);
            },
        }
        i = i + 1;
    }
    let p = order_by_keys(&own);
    let mut out: Vec<usize> = Vec::new();
    let mut k: usize = 0;
    while k < chosen.len()
        invariant
            k <= chosen@.len(),
            own@.len() == chosen@.len(),
            is_stable_order(p@, own@.len() as int, by_key(own@)),
            within(chosen@, providers@.len() as int),
            within(out@, providers@.len() as int),
            out@.len() == k,
            forall|j: int| 0 <= j < k ==> #[trigger] out@[j] == chosen@[p@[j] as int],
        decreases chosen@.len() - k,
    {
        proof {
            assert(p@[k as int] < own@.len());
            assert(chosen@[p@[k as int] as int] < providers@.len());
        }
        out.push(chosen[p[k]]);
        k = k + 1;
    }
    proof {
        let o = places(out@);
        assert forall|j: int| 0 <= j < c.len() implies #[trigger] o[j] == c[p@[j] as int] by {
            assert(p@[j] < own@.len());
        }
        match how {
            Arrangement::ByRating => {
                assert(own@ =~= rating_keys(c, offers));
                assert(is_stable_order(p@, c.len() as int, by_key(rating_keys(c, offers))));
            },
            Arrangement::AsNamed => {
                lemma_equal_keys(p@, own@);
                assert(o =~= c);
            },
            Arrangement::Shuffled => {
                assert(own@ =~= keys@);
                assert(is_stable_order(p@, c.len() as int, by_key(keys@)));
            },
        }
    }
    out
}

/// Places of equal keys stay where they are.
proof fn lemma_equal_keys(p: Seq<usize>, keys: Seq<u32>)
    requires
        is_stable_order(p, keys.len() as int, by_key(keys)),
        forall|i: int| 0 <= i < keys.len() ==> #[trigger] keys[i] == 0,
    ensures
        forall|i: int| 0 <= i < keys.len() ==> #[trigger] p[i] == i,
{
    assert forall|i: int, j: int| 0 <= i < j < p.len() implies #[trigger] p[i] < #[trigger] p[j] by {
        assert(p[i] < keys.len() && p[j] < keys.len());
        assert(keys[p[i] as int] == 0 && keys[p[j] as int] == 0);
        assert(crate::order::comes_before(by_key(keys), p[i] as int, p[j] as int));
    }
    assert forall|i: int| 0 <= i < keys.len() implies #[trigger] p[i] == i by {
        lemma_rising(p, i);
        lemma_rising_back(p, keys.len() as int, i);
    }
}

proof fn lemma_rising(p: Seq<usize>, i: int)
    requires
        0 <= i < p.len(),
        forall|i: int, j: int| 0 <= i < j < p.len() ==> #[trigger] p[i] < #[trigger] p[j],
    ensures
        p[i] >= i,
    decreases i,
{
    if i > 0 {
        lemma_rising(p, i - 1);
        assert(p[i - 1] < p[i]);
    }
}

proof fn lemma_rising_back(p: Seq<usize>, n: int, i: int)
    requires
        p.len() == n,
        0 <= i < n,
        forall|i: int, j: int| 0 <= i < j < p.len() ==> #[trigger] p[i] < #[trigger] p[j],
        forall|i: int| 0 <= i < n ==> #[trigger] p[i] < n,
    ensures
        p[i] <= i,
    decreases n - i,
{
    if i < n - 1 {
        lemma_rising_back(p, n, i + 1);
        assert(p[i] < p[i + 1]);
    } else {
        assert(p[i] < n);
    }
}

/// Where the client prefers the best rating, no provider is tried before one that rates
/// better.
pub proof fn law_best_rating_first(out: Seq<int>, c: Seq<int>, v: Seq<Offer>, i: int, j: int)
    requires
        sorted_by(out, c, rating_keys(c, v)),
        0 <= i < j < out.len(),
    ensures
        v[out[i]].rating >= v[out[j]].rating,
{
    let keys = rating_keys(c, v);
    let p = choose|p: Seq<usize>| #[trigger]
        is_stable_order(p, c.len() as int, by_key(keys)) && out.len() == c.len() && forall|i: int|
            0 <= i < c.len() ==> #[trigger] out[i] == c[p[i] as int];
    assert(p[i] < c.len() && p[j] < c.len());
    assert(crate::order::comes_before(by_key(keys), p[i] as int, p[j] as int));
    assert(!by_key(keys)(p[i] as int, p[j] as int));
    assert(out[i] == c[p[i] as int] && out[j] == c[p[j] as int]);
}

// ---------------------------------------------------------------------------
// Trying
// ---------------------------------------------------------------------------

/// How a provider is spoken to.
#[derive(Debug, Clone, Copy, PartialEq, Eq, Structural)]
pub enum Dialect {
    NearAi,
    Chutes,
    RedPill,
    Infomaniak,
    Tinfoil,
}

/// How a provider of a name is spoken to, if that is known.
pub open spec fn dialect_of(id: Seq<char>) -> Option<Dialect> {
    if id == "near-ai"@ {
        Some(Dialect::NearAi)
    } else if id == "chutes"@ {
        Some(Dialect::Chutes)
    } else if id == "redpill"@ {
        Some(Dialect::RedPill)
    } else if id == "infomaniak"@ {
        Some(Dialect::Infomaniak)
    } else if id == "tinfoil"@ {
        Some(Dialect::Tinfoil)
    } else {
        None
    }
}

/// Decides how a provider is spoken to; a name that is not known is an error.
pub fn dialect(id: &str) -> (r: Result<Dialect, String>)
    ensures
        match r {
            Ok(d) => dialect_of(id@) == Some(d),
            Err(e) => dialect_of(id@) is None && e@ == "Provider "@ + id@ + " not implemented."@,
        },
{
    if text_eq(id, "near-ai") {
        Ok(Dialect::NearAi)
    } else if text_eq(id, "chutes") {
        Ok(Dialect::Chutes)
    } else if text_eq(id, "redpill") {
        Ok(Dialect::RedPill)
    } else if text_eq(id, "infomaniak") {
        Ok(Dialect::Infomaniak)
    } else if text_eq(id, "tinfoil") {
        Ok(Dialect::Tinfoil)
    } else {
        Err(text::cat3("Provider ", id, " not implemented."))
    }
}

/// What the client may be told of a provider that failed: nothing of what it said itself.
pub fn failure_notice(id: &str, failure: Failure) -> (r: String)
    ensures
        r@ == "Provider '"@ + id@ + "' encountered an internal or upstream error ("@
            + failure_label(failure) + ")"@,
{
    text::cat5(
        "Provider '",
        id,
        "' encountered an internal or upstream error (",
        label_of(failure),
        ")",
    )
}

/// Refuses a request once all providers have failed. Where none was tried, `last` is absent.
pub fn all_failed(last: &Option<String>) -> (r: Refusal)
    ensures
        r@ == (Refused {
            status: 502,
            message: "All available AI providers failed to process the request. Last failure: "@
                + (match *last {
                Some(s) => s@,
                None => "All providers failed."@,
            }),
        }),
{
    let shown = match last {
        Some(s) => s.as_str(),
        None => "All providers failed.",
    };
    let message = text::cat2(
        "All available AI providers failed to process the request. Last failure: ",
        shown,
    );
    refuse(502, message.as_str())
}

/// The headers of an answer that is a stream, or of one that is not.
pub open spec fn completion_headers(streaming: bool) -> Seq<(Seq<char>, Seq<char>)> {
    if streaming {
        seq![
            ("Content-Type"@, "text/event-stream"@),
            ("Cache-Control"@, "no-cache"@),
            ("Connection"@, "keep-alive"@),
        ]
    } else {
        seq![("Content-Type"@, "application/json"@), ("Cache-Control"@, "no-cache"@)]
    }
}

/// The headers of an answer.
pub fn answer_headers_for(streaming: bool) -> (r: Vec<(&'static str, String)>)
    ensures
        crate::http::answer_headers(r@) == completion_headers(streaming),
{
    let mut out: Vec<(&'static str, String)> = Vec::new();
    if streaming {
        out.push(("Content-Type", "text/event-stream".to_string()));
        out.push(("Cache-Control", "no-cache".to_string()));
        out.push(("Connection", "keep-alive".to_string()));
    } else {
        out.push(("Content-Type", "application/json".to_string()));
        out.push(("Cache-Control", "no-cache".to_string()));
    }
    proof {
        assert(crate::http::answer_headers(out@) =~= completion_headers(streaming));
    }
    out
}

// ---------------------------------------------------------------------------
// All of it
// ---------------------------------------------------------------------------

/// A request that may go on: the session with the client, the key of a client that speaks to
/// an enclave of its own, the model's name, and the providers.
pub struct Routed {
    pub session: Option<E2eeSession>,
    pub passthrough: Option<String>,
    pub model: String,
    pub providers: Vec<usize>,
}

/// What a request asks of providers, once it has been opened.
pub open spec fn demands_of(
    zdr: Option<bool>,
    zds: Option<bool>,
    tee: Option<bool>,
    encrypted: bool,
    passing: bool,
) -> Demands {
    Demands {
        zdr: switch_under_encryption(zdr, encrypted),
        zds: switch_under_encryption(zds, encrypted),
        tee: switch_under_encryption(tee, encrypted),
        passing,
    }
}

/// Why a request is refused, if it is: because of its encryption, of its key for an enclave,
/// or because no provider will do; in this order.
pub open spec fn refusal_of(
    opened: Result<Admitted, Refused>,
    passthrough: Result<Option<Seq<char>>, Refused>,
    choice: Result<Seq<int>, Refused>,
) -> Option<Refused> {
    if opened is Err {
        Some(opened->Err_0)
    } else if passthrough is Err {
        Some(passthrough->Err_0)
    } else if choice is Err {
        Some(choice->Err_0)
    } else {
        None
    }
}

/// Takes a request in: forbids keeping it, opens it, and chooses the providers that it may go
/// to.
pub fn route_request(
    request: &mut ChatCompletionRequest,
    headers: &Vec<(String, String)>,
    secrets: &TicketSecrets,
    routes: &Vec<(String, Vec<String>)>,
    providers: &Vec<ProviderConfig>,
) -> (r: Result<Routed, Refusal>)
    ensures
        ({
            let h = entries(headers@);
            let opened = request_outcome(
                h,
                secrets.current@,
                secrets.previous@,
                old(request).model@,
                said_in(old(request).messages@),
                switches_text(old(request).zdr, old(request).zds, old(request).tee),
            );
            let passthrough = passthrough_outcome(h);
            let choice = choice_of(
                unicode_lowercase(old(request).model@),
                entries(routes@),
                offers_of(providers@),
                demands_of(
                    old(request).zdr,
                    old(request).zds,
                    old(request).tee,
                    header_is(h, "x-e2ee-enabled"@, "true"@),
                    passthrough matches Ok(Some(_)),
                ),
                names_in(old(request).provider),
            );
            match r {
                Ok(routed) => {
                    &&& refusal_of(opened, passthrough, choice) is None
                    &&& opened->Ok_0 == (Admitted {
                        session: session_facts(routed.session),
                        messages: said_in(final(request).messages@),
                    })
                    &&& passthrough->Ok_0 == (match routed.passthrough {
                        Some(k) => Some(k@),
                        None => None,
                    })
                    &&& routed.model@ == unicode_lowercase(old(request).model@)
                    &&& choice->Ok_0 == places(routed.providers@)
                    &&& within(routed.providers@, providers@.len() as int)
                },
                Err(e) => refusal_of(opened, passthrough, choice) == Some(e@),
            }
        }),
        same_wishes(*final(request), *old(request)),
        final(request).store == Some(false),
        final(request).cache_prompt == Some(false),
        final(request).model == old(request).model,
        final(request).stream_options == old(request).stream_options,
        final(request).zdr == switch_under_encryption(
            old(request).zdr,
            header_is(entries(headers@), "x-e2ee-enabled"@, "true"@),
        ),
        final(request).zds == switch_under_encryption(
            old(request).zds,
            header_is(entries(headers@), "x-e2ee-enabled"@, "true"@),
        ),
        final(request).tee == switch_under_encryption(
            old(request).tee,
            header_is(entries(headers@), "x-e2ee-enabled"@, "true"@),
        ),
{
    request.forbid_keeping();
    let session = match open_request(request, headers, secrets) {
        Ok(s) => s,
        Err(e) => {
            return Err(e);
        },
    };
    let passthrough = match passthrough_key(headers) {
        Ok(k) => k,
        Err(e) => {
            return Err(e);
        },
    };
    let model = request.model.as_str().to_lowercase();
    let demands = Demands {
        zdr: request.zdr,
        zds: request.zds,
        tee: request.tee,
        passing: passthrough.is_some(),
    };
    match choose_providers(model.as_str(), routes, providers, &demands, &request.provider) {
        Ok(chosen) => Ok(Routed { session, passthrough, model, providers: chosen }),
        Err(e) => Err(e),
    }
}

} // verus!
