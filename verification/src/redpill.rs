//! The models of RedPill: only those that run at providers that can be trusted, and of each
//! the cheapest offer.

use vstd::prelude::*;

use crate::catalog::copy_at_or;
use crate::catalog::number_at_or;
use crate::catalog::number_or;
use crate::catalog::value_or;
use crate::json::elements_at;
use crate::json::text_at;
use crate::json::values_of;
use crate::json::Json;
use crate::json::JsonValue;
use crate::models::standard_name;
use crate::models::standardize_model_name;
use crate::state::DynamicModelInfo;
use crate::state::ModelFacts;
use crate::table;
use crate::table::entries;
use crate::table::entry_of;
use crate::table::with_entry;
use crate::text::text_eq;

verus! {

/// Whether a provider can be trusted with what is sent through this one.
pub open spec fn is_allowed(provider: Seq<char>) -> bool {
    provider == "chutes"@ || provider == "near-ai"@ || provider == "secretai"@ || provider
        == "tinfoil"@ || provider == "phala"@ || provider == "0g"@
}

/// Whether a value names a provider that can be trusted.
pub open spec fn names_allowed(v: JsonValue) -> bool {
    v.text() matches Some(s) && is_allowed(s)
}

/// Whether an entry of the listing runs at trusted providers only, and at one at least.
pub open spec fn all_allowed(v: JsonValue) -> bool {
    match elements_at(v, "providers"@) {
        Some(p) => p.len() > 0 && forall|i: int| 0 <= i < p.len() ==> names_allowed(#[trigger] p[i]),
        None => false,
    }
}

/// The model that an entry of the listing describes, at a price.
pub open spec fn model_of(v: JsonValue, price: (u64, u64)) -> Option<(Seq<char>, ModelFacts)> {
    match text_at(v, "id"@) {
        Some(id) => if all_allowed(v) {
            Some(
                (
                    standard_name(id),
                    ModelFacts {
                        upstream: id,
                        name: match text_at(v, "name"@) {
                            Some(n) => n,
                            None => standard_name(id),
                        },
                        price_input: price.0,
                        price_output: price.1,
                        context: number_or(v, "context_length"@, 0),
                        completion: number_or(v, "max_output_length"@, 0),
                        sampling: value_or(v, "supported_parameters"@, JsonValue::Null),
                        features: JsonValue::Null,
                        endpoint: None,
                    },
                ),
            )
        } else {
            None
        },
        None => None,
    }
}

/// Whether a cost is no lower than another. A cost is a number that orders as the sum of the
/// two prices does; `None` stands for a sum that compares with nothing.
pub open spec fn no_cheaper(cost: Option<u64>, than: Option<u64>) -> bool {
    match (cost, than) {
        (Some(a), Some(b)) => a >= b,
        _ => false,
    }
}

/// The models that are kept, with their costs: under each name the first, unless a later one
/// is cheaper.
pub open spec fn kept(
    v: Seq<JsonValue>,
    prices: Seq<(u64, u64)>,
    costs: Seq<Option<u64>>,
    n: int,
) -> Seq<(Seq<char>, (ModelFacts, Option<u64>))>
    decreases n,
{
    if n <= 0 {
        seq![]
    } else {
        let before = kept(v, prices, costs, n - 1);
        match model_of(v[n - 1], prices[n - 1]) {
            Some(m) => match entry_of(before, m.0) {
                Some(e) => if no_cheaper(costs[n - 1], e.1) {
                    before
                } else {
                    with_entry(before, m.0, (m.1, costs[n - 1]))
                },
                None => with_entry(before, m.0, (m.1, costs[n - 1])),
            },
            None => before,
        }
    }
}

/// The models without their costs.
pub open spec fn without_costs(v: Seq<(Seq<char>, (ModelFacts, Option<u64>))>) -> Seq<
    (Seq<char>, ModelFacts),
> {
    v.map_values(|e: (Seq<char>, (ModelFacts, Option<u64>))| (e.0, e.1.0))
}

fn allows(provider: &str) -> (r: bool)
    ensures
        r == is_allowed(provider@),
{
    text_eq(provider, "chutes") || text_eq(provider, "near-ai") || text_eq(provider, "secretai")
        || text_eq(provider, "tinfoil") || text_eq(provider, "phala") || text_eq(provider, "0g")
}

fn allows_all(v: &Json) -> (r: bool)
    ensures
        r == all_allowed(v@),
{
    let providers = match v.elements_at("providers") {
        Some(p) => p,
        None => {
            return false;
        },
    };
    let ghost all = values_of(providers@);
    let mut i: usize = 0;
    while i < providers.len()
        invariant
            i <= providers@.len(),
            all == values_of(providers@),
            elements_at(v@, "providers"@) == Some(all),
            forall|j: int| 0 <= j < i ==> names_allowed(#[trigger] all[j]),
        decreases providers@.len() - i,
    {
        proof {
            assert(all[i as int] == providers@[i as int]@);
        }
        let fine = match providers[i].as_str() {
            Some(s) => allows(s.as_str()),
            None => false,
        };
        if !fine {
            return false;
        }
        i = i + 1;
    }
    providers.len() > 0
}

fn read_model(v: &Json, price: (u64, u64)) -> (r: Option<(String, DynamicModelInfo)>)
    ensures
        match r {
            Some(m) => model_of(v@, price) == Some((m.0@, m.1.deep_view())),
            None => model_of(v@, price) is None,
        },
{
    if !allows_all(v) {
        return None;
    }
    let id = match v.text_at("id") {
        Some(s) => s,
        None => {
            return None;
        },
    };
    let key = standardize_model_name(id.as_str());
    let name = match v.text_at("name") {
        Some(n) => n.clone(),
        None => key.clone(),
    };
    let info = DynamicModelInfo {
        upstream_model_name: id.clone(),
        name,
        price_input_1m: price.0,
        price_output_1m: price.1,
        context_length: number_at_or(v, "context_length", 0),
        max_completion_tokens: number_at_or(v, "max_output_length", 0),
        supported_sampling_parameters: copy_at_or(v, "supported_parameters", Json::Null),
        supported_features: Json::Null,
        direct_endpoint: None,
    };
    Some((key, info))
}

/// Reads the models out of the listing. `prices` and `costs` are those of the entries, in the
/// same order.
pub fn parse_models(data: &Vec<Json>, prices: &Vec<(u64, u64)>, costs: &Vec<Option<u64>>) -> (r: Vec<
    (String, DynamicModelInfo),
>)
    requires
        prices@.len() == data@.len(),
        costs@.len() == data@.len(),
    ensures
        entries(r@) == without_costs(kept(values_of(data@), prices@, costs@, data@.len() as int)),
{
    let ghost all = values_of(data@);
    let mut found: Vec<(String, (DynamicModelInfo, Option<u64>))> = Vec::new();
    let mut i: usize = 0;
    proof {
        assert(entries(found@) =~= seq![]);
    }
    while i < data.len()
        invariant
            i <= data@.len(),
            prices@.len() == data@.len(),
            costs@.len() == data@.len(),
            all == values_of(data@),
            entries(found@) == kept(all, prices@, costs@, i as int),
        decreases data@.len() - i,
    {
        proof {
            assert(all[i as int] == data@[i as int]@);
        }
        if let Some((name, info)) = read_model(&data[i], prices[i]) {
            let keep_old = match table::lookup(&found, name.as_str()) {
                Some(e) => match (costs[i], e.1) {
                    (Some(a), Some(b)) => a >= b,
                    _ => false,
                },
                None => false,
            };
            if !keep_old {
                table::insert(&mut found, name.as_str(), (info, costs[i]));
            }
        }
        i = i + 1;
    }
    let ghost chosen = entries(found@);
    let mut out: Vec<(String, DynamicModelInfo)> = Vec::new();
    let mut k: usize = 0;
    while k < found.len()
        invariant
            k <= found@.len(),
            out@.len() == k,
            forall|j: int|
                0 <= j < k ==> (#[trigger] out@[j]).0@ == found@[j].0@ && out@[j].1.deep_view()
                    == found@[j].1.0.deep_view(),
        decreases found@.len() - k,
    {
        out.push((found[k].0.clone(), found[k].1.0.copy()));
        k = k + 1;
    }
    proof {
        assert(entries(out@) =~= without_costs(chosen));
    }
    out
}

/// Of the offers under one name the kept one costs no more than any other, where all costs
/// compare.
pub proof fn law_cheapest_offer_is_kept(
    v: Seq<JsonValue>,
    prices: Seq<(u64, u64)>,
    costs: Seq<Option<u64>>,
    n: int,
    i: int,
)
    requires
        0 <= i < n <= v.len(),
        n <= costs.len(),
        forall|j: int| 0 <= j < n ==> (#[trigger] costs[j]) is Some,
        model_of(v[i], prices[i]) is Some,
    ensures
        entry_of(kept(v, prices, costs, n), (model_of(v[i], prices[i])->0).0) matches Some(e)
            && e.1 is Some && e.1->0 <= costs[i]->0,
    decreases n,
{
    let name = (model_of(v[i], prices[i])->0).0;
    let before = kept(v, prices, costs, n - 1);
    assert(costs[n - 1] is Some);
    assert(costs[i] is Some);
    lemma_costs_known(v, prices, costs, n - 1, name);
    if i < n - 1 {
        law_cheapest_offer_is_kept(v, prices, costs, n - 1, i);
    }
    match model_of(v[n - 1], prices[n - 1]) {
        Some(m) => {
            table::law_table_keeps_what_it_is_given(before, m.0, (m.1, costs[n - 1]), name);
        },
        None => {},
    }
}

proof fn lemma_costs_known(
    v: Seq<JsonValue>,
    prices: Seq<(u64, u64)>,
    costs: Seq<Option<u64>>,
    n: int,
    name: Seq<char>,
)
    requires
        0 <= n <= costs.len(),
        forall|j: int| 0 <= j < n ==> (#[trigger] costs[j]) is Some,
    ensures
        entry_of(kept(v, prices, costs, n), name) matches Some(e) ==> e.1 is Some,
    decreases n,
{
    if n > 0 {
        let before = kept(v, prices, costs, n - 1);
        lemma_costs_known(v, prices, costs, n - 1, name);
        assert(costs[n - 1] is Some);
        match model_of(v[n - 1], prices[n - 1]) {
            Some(m) => {
                table::law_table_keeps_what_it_is_given(before, m.0, (m.1, costs[n - 1]), name);
            },
            None => {},
        }
    }
}

} // verus!
