//! What is taken over of the models that the providers offer.

use vstd::prelude::*;

use crate::catalog::collected;
use crate::catalog::enclave_name;
use crate::catalog::leaving_out;
use crate::catalog::listing_of;
use crate::catalog::listing_url;
use crate::catalog::models_after;
use crate::catalog::without_stop;
use crate::chat::Said;
use crate::chutes;
use crate::infomaniak;
use crate::infomaniak::counting_price;
use crate::infomaniak::normalized;
use crate::json::elements_at;
use crate::json::text_at;
use crate::json::truth_at;
use crate::json::unsigned_at;
use crate::json::JsonValue;
use crate::models::standard_name;
use crate::nearai_models;
use crate::nearai_models::default_endpoint;
use crate::nearai_models::server_of;
use crate::nearai_models::servers_in;
use crate::nearai_models::with_models;
use crate::provider_laws::stands_in;
use crate::redpill;
use crate::redpill::kept;
use crate::state::ModelFacts;
use crate::table::entry_of;
use crate::table::law_table_keeps_what_it_is_given;
use crate::table::lemma_place_of;
use crate::text::joined;
use crate::text::unicode_lowercase;
use crate::text_laws::law_copies_at_the_ends_go;
use crate::text_laws::law_occurrences_are_replaced;
use crate::text_laws::law_single_characters_are_replaced;
use crate::tinfoil;

verus! {

/// A number that an entry tells, or another where it tells none.
pub open spec fn told_or(v: JsonValue, key: Seq<char>, otherwise: u64) -> u64 {
    if unsigned_at(v, key) is Some {
        unsigned_at(v, key)->0
    } else {
        otherwise
    }
}

/// Of an enclave network's entries those are taken over that have a name and compute
/// confidentially, each under its bare name.
pub proof fn law_confidential_models_are_taken(v: JsonValue, price: (u64, u64), id: Seq<char>)
    ensures
        text_at(v, "id"@) is None ==> chutes::model_of(v, price) is None,
        truth_at(v, "confidential_compute"@) != Some(true) ==> chutes::model_of(v, price) is None,
        text_at(v, "id"@) == Some(id) && truth_at(v, "confidential_compute"@) == Some(true) ==> {
            let r = chutes::model_of(v, price);
            &&& r is Some
            &&& (r->0).0 == enclave_name(id)
            &&& (r->0).1.upstream == id
            &&& (r->0).1.name == enclave_name(id)
            &&& (r->0).1.price_input == price.0
            &&& (r->0).1.price_output == price.1
            &&& (r->0).1.context == told_or(v, "context_length"@, 0)
            &&& (r->0).1.completion == told_or(v, "max_output_length"@, 0)
            &&& v.get("supported_sampling_parameters"@) matches Some(x) ==> (r->0).1.sampling == x
            &&& v.get("supported_features"@) matches Some(x) ==> (r->0).1.features == x
            &&& (r->0).1.endpoint is None
        },
{
}

/// Whether the providers of an entry are some, and all of them known to be private.
pub open spec fn is_private(v: JsonValue) -> bool {
    elements_at(v, "providers"@) matches Some(p) && p.len() > 0 && forall|i: int|
        0 <= i < p.len() ==> {
            ||| (#[trigger] p[i]).text() == Some("chutes"@)
            ||| p[i].text() == Some("near-ai"@)
            ||| p[i].text() == Some("secretai"@)
            ||| p[i].text() == Some("tinfoil"@)
            ||| p[i].text() == Some("phala"@)
            ||| p[i].text() == Some("0g"@)
        }
}

/// Of a broker's entries those are taken over that have a name and come from private
/// providers alone, each under its standard name.
pub proof fn law_private_models_are_taken(v: JsonValue, price: (u64, u64), id: Seq<char>)
    ensures
        text_at(v, "id"@) is None ==> redpill::model_of(v, price) is None,
        !is_private(v) ==> redpill::model_of(v, price) is None,
        text_at(v, "id"@) == Some(id) && is_private(v) ==> {
            let r = redpill::model_of(v, price);
            &&& r is Some
            &&& (r->0).0 == standard_name(id)
            &&& (r->0).1.upstream == id
            &&& text_at(v, "name"@) is None ==> (r->0).1.name == standard_name(id)
            &&& text_at(v, "name"@) matches Some(n) ==> (r->0).1.name == n
            &&& (r->0).1.price_input == price.0
            &&& (r->0).1.price_output == price.1
            &&& (r->0).1.context == told_or(v, "context_length"@, 0)
            &&& (r->0).1.completion == told_or(v, "max_output_length"@, 0)
            &&& v.get("supported_parameters"@) matches Some(x) ==> (r->0).1.sampling == x
            &&& (r->0).1.endpoint is None
        },
{
    match elements_at(v, "providers"@) {
        Some(p) => {
            if is_private(v) {
                assert forall|i: int| 0 <= i < p.len() implies redpill::names_allowed(
                    #[trigger] p[i],
                ) by {
                    assert(p[i].text() is Some);
                }
                assert(redpill::all_allowed(v));
            }
            if redpill::all_allowed(v) {
                assert forall|i: int| 0 <= i < p.len() implies ({
                    ||| (#[trigger] p[i]).text() == Some("chutes"@)
                    ||| p[i].text() == Some("near-ai"@)
                    ||| p[i].text() == Some("secretai"@)
                    ||| p[i].text() == Some("tinfoil"@)
                    ||| p[i].text() == Some("phala"@)
                    ||| p[i].text() == Some("0g"@)
                }) by {
                    assert(redpill::names_allowed(p[i]));
                }
            }
        },
        None => {},
    }
}

/// Of several offers under one name, one is kept as it was made, at the cost it was made for.
pub proof fn law_kept_offers_were_made(
    v: Seq<JsonValue>,
    prices: Seq<(u64, u64)>,
    costs: Seq<Option<u64>>,
    n: int,
    name: Seq<char>,
)
    requires
        0 <= n <= v.len(),
    ensures
        entry_of(kept(v, prices, costs, n), name) matches Some(e) ==> exists|j: int|
            #![trigger v[j]]
            0 <= j < n && redpill::model_of(v[j], prices[j]) == Some((name, e.0)) && costs[j]
                == e.1,
    decreases n,
{
    if n > 0 {
        law_kept_offers_were_made(v, prices, costs, n - 1, name);
        let before = kept(v, prices, costs, n - 1);
        match redpill::model_of(v[n - 1], prices[n - 1]) {
            Some(m) => {
                law_table_keeps_what_it_is_given(before, m.0, (m.1, costs[n - 1]), name);
            },
            None => {},
        }
    } else {
        lemma_place_of(kept(v, prices, costs, n), name, 0);
    }
}

/// An offer takes the place of one under the same name where it costs less; at the same cost
/// the earlier one stays.
pub proof fn law_cheaper_offers_replace(
    v: Seq<JsonValue>,
    prices: Seq<(u64, u64)>,
    costs: Seq<Option<u64>>,
    n: int,
    name: Seq<char>,
    facts: ModelFacts,
    held: ModelFacts,
    old_cost: u64,
    cost: u64,
)
    requires
        0 < n,
        redpill::model_of(v[n - 1], prices[n - 1]) == Some((name, facts)),
        costs[n - 1] == Some(cost),
    ensures
        entry_of(kept(v, prices, costs, n - 1), name) is None ==> entry_of(
            kept(v, prices, costs, n),
            name,
        ) == Some((facts, Some(cost))),
        entry_of(kept(v, prices, costs, n - 1), name) == Some((held, Some(old_cost))) ==> entry_of(
            kept(v, prices, costs, n),
            name,
        ) == (if cost < old_cost {
            Some((facts, Some(cost)))
        } else {
            Some((held, Some(old_cost)))
        }),
{
    let before = kept(v, prices, costs, n - 1);
    law_table_keeps_what_it_is_given(before, name, (facts, Some(cost)), name);
}

/// Of the Swiss provider's entries the language models are taken over, each under its
/// standard name.
pub proof fn law_language_models_are_taken(v: JsonValue, price: (u64, u64), id: Seq<char>)
    ensures
        text_at(v, "name"@) is None ==> infomaniak::model_of(v, price) is None,
        text_at(v, "type"@) != Some("llm"@) ==> infomaniak::model_of(v, price) is None,
        text_at(v, "name"@) == Some(id) && text_at(v, "type"@) == Some("llm"@) ==> {
            let r = infomaniak::model_of(v, price);
            &&& r is Some
            &&& (r->0).0 == standard_name(id)
            &&& (r->0).1.upstream == id
            &&& (r->0).1.name == standard_name(id)
            &&& (r->0).1.price_input == price.0
            &&& (r->0).1.price_output == price.1
            &&& (r->0).1.context == told_or(v, "max_token_input"@, 8192)
            &&& (r->0).1.completion == 4096
            &&& (r->0).1.endpoint is None
        },
{
}

/// The price that counts is the first in the first currency; one without a currency is in it.
pub proof fn law_first_currency_counts(prices: Seq<JsonValue>, from: int, at: int)
    requires
        0 <= from <= at <= prices.len(),
        forall|j: int|
            from <= j < at ==> told_or(#[trigger] prices[j], "currency_id"@, 1) != 1,
        at < prices.len() ==> told_or(prices[at], "currency_id"@, 1) == 1,
    ensures
        at < prices.len() ==> counting_price(prices, from) == Some(prices[at]),
        at == prices.len() ==> counting_price(prices, from) is None,
    decreases at - from,
{
    if from < at {
        assert(told_or(prices[from], "currency_id"@, 1) != 1);
        law_first_currency_counts(prices, from + 1, at);
    }
}

/// The contents of some messages.
pub open spec fn contents(v: Seq<Said>) -> Seq<Seq<char>> {
    v.map_values(|m: Said| m.content)
}

/// Instructions at the beginning become one, with an empty line between each two; those
/// further on are put in the user's mouth; and every other message stays where it is.
pub proof fn law_instructions_are_gathered(first: Seq<Said>, v: Seq<Said>, m: Said, turn: int)
    requires
        first.len() > 0,
        forall|i: int| 0 <= i < first.len() ==> (#[trigger] first[i]).role == "system"@,
    ensures
        normalized(first) == seq![
            Said { role: "system"@, content: joined(contents(first), "\n\n"@) },
        ],
        m.role != "system"@ ==> normalized(v.push(m)) == normalized(v).push(m),
        m.role == "system"@ && 0 <= turn < v.len() && v[turn].role != "system"@ ==> normalized(
            v.push(m),
        ) == normalized(v).push(Said { role: "user"@, content: m.content }),
    decreases first.len(),
{
    assert(v.push(m).drop_last() =~= v);
    if 0 <= turn < v.len() && v[turn].role != "system"@ {
        assert(!infomaniak::is_system(v[turn]));
    }
    let front = first.drop_last();
    let all = contents(first);
    assert(all.drop_last() =~= contents(front));
    assert(first.last() == first[first.len() - 1]);
    assert(all.last() == first.last().content);
    assert(!infomaniak::has_turn(front));
    if front.len() > 0 {
        law_instructions_are_gathered(front, v, m, turn);
        assert(normalized(first) =~= seq![
            Said { role: "system"@, content: joined(all, "\n\n"@) },
        ]);
    } else {
        assert(normalized(front) =~= seq![]);
        assert(all[0] == first[0].content);
        assert(normalized(first) =~= seq![
            Said { role: "system"@, content: joined(all, "\n\n"@) },
        ]);
    }
}

/// Whether an entry is of a model for text that its provider runs itself.
pub open spec fn is_own_text_model(v: JsonValue) -> bool {
    &&& match text_at(v, "type"@) {
        Some(t) => t == "chat"@ || t == "safety"@,
        None => elements_at(v, "input_modalities"@) matches Some(m) && exists|i: int|
            0 <= i < m.len() && (#[trigger] m[i]).text() == Some("text"@),
    }
    &&& text_at(v, "owned_by"@) == Some("tinfoil"@) || (elements_at(v, "providers"@) matches Some(p)
        && exists|i: int| 0 <= i < p.len() && (#[trigger] p[i]).text() == Some("tinfoil"@))
}

/// Of the shielded provider's entries those are taken over that are models for text of its
/// own, four of them under another name.
pub proof fn law_own_models_are_taken(v: JsonValue, price: (u64, u64), id: Seq<char>)
    ensures
        text_at(v, "id"@) is None ==> tinfoil::model_of(v, price) is None,
        !is_own_text_model(v) ==> tinfoil::model_of(v, price) is None,
        text_at(v, "id"@) == Some(id) && is_own_text_model(v) ==> {
            let r = tinfoil::model_of(v, price);
            let name = if id == "glm-5-1"@ {
                "glm-5.1"@
            } else if id == "gemma4-31b"@ {
                "gemma-4-31b"@
            } else if id == "kimi-k2-6"@ {
                "kimi-k2.6"@
            } else if id == "llama3-3-70b"@ {
                "llama-3.3-70b-instruct"@
            } else {
                id
            };
            &&& r is Some
            &&& (r->0).0 == name
            &&& (r->0).1.upstream == id
            &&& (r->0).1.name == name
            &&& (r->0).1.price_input == price.0
            &&& (r->0).1.price_output == price.1
            &&& (r->0).1.context == told_or(
                v,
                "context_length"@,
                told_or(v, "context_window"@, 8192),
            )
            &&& (r->0).1.completion == told_or(
                v,
                "max_output_length"@,
                if v.get("top_provider"@) is Some {
                    told_or(v.get("top_provider"@)->0, "max_completion_tokens"@, 4096)
                } else {
                    4096
                },
            )
            &&& (r->0).1.sampling matches JsonValue::Arr(w) && w.len() == 3 && w[0]
                == JsonValue::Str("temperature"@) && w[1] == JsonValue::Str("top_p"@) && w[2]
                == JsonValue::Str("max_tokens"@)
            &&& (r->0).1.endpoint is None
        },
{
    assert(tinfoil::is_text_model(v) && tinfoil::is_own_model(v) <==> is_own_text_model(v));
}

/// Of the enclave servers' entries those are taken over that read and write text alone, run
/// on a server that is known, and neither rank nor embed; each is asked at its server.
pub proof fn law_served_models_are_taken(
    v: JsonValue,
    price: (u64, u64),
    servers: Seq<(Seq<char>, Seq<char>)>,
    id: Seq<char>,
    domain: Seq<char>,
)
    requires
        text_at(v, "id"@) == Some(id),
    ensures
        ({
            let r = nearai_models::model_of(v, price, servers);
            &&& entry_of(servers, id) is None ==> r is None
            &&& stands_in("Reranker"@, id) || stands_in("Embedding"@, id) ==> r is None
            &&& !nearai_models::is_text_only(v) ==> r is None
            &&& entry_of(servers, id) == Some(domain) && nearai_models::is_text_only(v)
                && !stands_in("Reranker"@, id) && !stands_in("Embedding"@, id) ==> {
                &&& r is Some
                &&& (r->0).0 == enclave_name(id)
                &&& (r->0).1.upstream == id
                &&& (r->0).1.name == enclave_name(id)
                &&& (r->0).1.price_input == price.0
                &&& (r->0).1.price_output == price.1
                &&& (r->0).1.endpoint == Some("https://"@ + domain)
                &&& v.get("top_provider"@) is None ==> (r->0).1.context == told_or(
                    v,
                    "context_length"@,
                    128000,
                ) && (r->0).1.completion == told_or(v, "max_output_length"@, 4096)
                &&& v.get("top_provider"@) matches Some(t) ==> (r->0).1.context == told_or(
                    t,
                    "context_length"@,
                    told_or(v, "context_length"@, 128000),
                ) && (r->0).1.completion == told_or(
                    t,
                    "max_completion_tokens"@,
                    told_or(v, "max_output_length"@, 4096),
                )
                &&& v.get("supported_features"@) matches Some(x) ==> (r->0).1.features == x
                &&& v.get("supported_sampling_parameters"@) matches Some(x) ==> (r->0).1.sampling
                    == without_stop(x)
            }
        }),
{
    crate::provider_laws::lemma_stands_in("Reranker"@, id);
    crate::provider_laws::lemma_stands_in("Embedding"@, id);
}

/// A list of words is text alone where it has words and each is "text"; told on top or in the
/// description of the architecture.
pub proof fn law_text_alone_is_told(v: JsonValue, inputs: Seq<JsonValue>, outputs: Seq<JsonValue>)
    requires
        elements_at(v, "input_modalities"@) == Some(inputs),
        elements_at(v, "output_modalities"@) == Some(outputs),
    ensures
        nearai_models::is_text_only(v) <==> inputs.len() > 0 && outputs.len() > 0 && (forall|i: int|
            0 <= i < inputs.len() ==> (#[trigger] inputs[i]).text() == Some("text"@)) && (forall|
            i: int,
        |
            0 <= i < outputs.len() ==> (#[trigger] outputs[i]).text() == Some("text"@)),
{
}

/// The last server that names a model is the one that it runs on; the others keep theirs.
pub proof fn law_last_server_counts(
    list: Seq<JsonValue>,
    entry: JsonValue,
    models: Seq<JsonValue>,
    domain: Seq<char>,
    name: Seq<char>,
)
    requires
        elements_at(entry, "models"@) == Some(models),
        text_at(entry, "domain"@) == Some(domain),
    ensures
        models.contains(JsonValue::Str(name)) ==> entry_of(servers_in(list.push(entry)), name)
            == Some(domain),
        !models.contains(JsonValue::Str(name)) ==> entry_of(servers_in(list.push(entry)), name)
            == entry_of(servers_in(list), name),
{
    assert(list.push(entry).drop_last() =~= list);
    lemma_with_models(servers_in(list), models, domain, name);
}

proof fn lemma_with_models(
    servers: Seq<(Seq<char>, Seq<char>)>,
    models: Seq<JsonValue>,
    domain: Seq<char>,
    name: Seq<char>,
)
    ensures
        entry_of(with_models(servers, models, domain), name) == (if models.contains(
            JsonValue::Str(name),
        ) {
            Some(domain)
        } else {
            entry_of(servers, name)
        }),
    decreases models.len(),
{
    if models.len() > 0 {
        let front = models.drop_last();
        let last = models.last();
        let before = with_models(servers, front, domain);
        lemma_with_models(servers, front, domain, name);
        assert(models.contains(JsonValue::Str(name)) <==> front.contains(JsonValue::Str(name))
            || last == JsonValue::Str(name)) by {
            if models.contains(JsonValue::Str(name)) && last != JsonValue::Str(name) {
                let i = choose|i: int| 0 <= i < models.len() && models[i] == JsonValue::Str(name);
                assert(front[i] == models[i]);
            }
            if front.contains(JsonValue::Str(name)) {
                let i = choose|i: int| 0 <= i < front.len() && front[i] == JsonValue::Str(name);
                assert(models[i] == front[i]);
            }
            assert(models[models.len() - 1] == last);
        }
        match last.text() {
            Some(m) => {
                law_table_keeps_what_it_is_given(before, m, domain, name);
            },
            None => {},
        }
    } else {
        assert(!models.contains(JsonValue::Str(name)));
    }
}

/// A model that no list names runs at its name in lower case, with hyphens for dots; and an
/// address names its server with or without what stands around it.
pub proof fn law_servers_are_named(model: Seq<char>, domain: Seq<char>)
    requires
        forall|tail: Seq<char>| domain != #[trigger] ("https://"@ + tail),
        forall|head: Seq<char>| domain != #[trigger] (head + "/"@),
    ensures
        exists|dashed: Seq<char>|
            {
                &&& default_endpoint(model) == #[trigger] ("https://"@ + dashed
                    + ".completions.near.ai"@)
                &&& dashed.len() == unicode_lowercase(model).len()
                &&& forall|i: int|
                    0 <= i < dashed.len() ==> #[trigger] dashed[i] == (if unicode_lowercase(
                        model,
                    )[i] == '.' {
                        '-'
                    } else {
                        unicode_lowercase(model)[i]
                    })
            },
        server_of(domain) == domain,
        server_of("https://"@ + domain) == domain,
        (forall|tail: Seq<char>| domain + "/"@ != #[trigger] ("https://"@ + tail)) ==> server_of(
            "https://"@ + (domain + "/"@),
        ) == domain,
{
    reveal_strlit(".");
    reveal_strlit("-");
    reveal_strlit("/");
    assert("."@ =~= seq!['.']);
    assert("-"@ =~= seq!['-']);
    law_single_characters_are_replaced(unicode_lowercase(model), '.', '-');
    let dashed = crate::text::replaced(unicode_lowercase(model), "."@, "-"@);
    assert(default_endpoint(model) == "https://"@ + dashed + ".completions.near.ai"@);
    assert("https://"@.len() == 8) by {
        reveal_strlit("https://");
    }
    law_copies_at_the_ends_go(domain, "https://"@);
    law_copies_at_the_ends_go(domain, "/"@);
    law_copies_at_the_ends_go(domain + "/"@, "https://"@);
}

/// The last offer under a name is the one that is taken over, and no name is taken over that
/// was not offered.
pub proof fn law_last_offer_is_taken(
    found: Seq<Option<(Seq<char>, ModelFacts)>>,
    i: int,
    name: Seq<char>,
)
    ensures
        0 <= i < found.len() && found[i] is Some && (found[i]->0).0 == name && (forall|j: int|
            i < j < found.len() && (#[trigger] found[j]) is Some ==> (found[j]->0).0 != name)
            ==> entry_of(collected(found), name) == Some((found[i]->0).1),
        (forall|j: int|
            0 <= j < found.len() && (#[trigger] found[j]) is Some ==> (found[j]->0).0 != name)
            ==> entry_of(collected(found), name) is None,
    decreases found.len(),
{
    if found.len() > 0 {
        let front = found.drop_last();
        let before = collected(front);
        law_last_offer_is_taken(front, i, name);
        match found.last() {
            Some(m) => {
                law_table_keeps_what_it_is_given(before, m.0, m.1, name);
                assert(found[found.len() - 1] is Some);
            },
            None => {},
        }
        assert forall|j: int| 0 <= j < front.len() implies front[j] == found[j] by {}
        if forall|j: int|
            0 <= j < found.len() && (#[trigger] found[j]) is Some ==> (found[j]->0).0 != name {
            assert forall|j: int|
                0 <= j < front.len() && (#[trigger] front[j]) is Some implies (front[j]->0).0
                != name by {
                assert(found[j] is Some);
            }
        }
        if 0 <= i < front.len() && found[i] is Some && (found[i]->0).0 == name && (forall|j: int|
            i < j < found.len() && (#[trigger] found[j]) is Some ==> (found[j]->0).0 != name) {
            assert forall|j: int|
                i < j < front.len() && (#[trigger] front[j]) is Some implies (front[j]->0).0
                != name by {
                assert(found[j] is Some);
            }
        }
    } else {
        lemma_place_of(collected(found), name, 0);
    }
}

/// What a provider offers takes the place of what it offered under the same name before, and
/// what it offered under other names stays.
pub proof fn law_models_are_updated(
    known: Seq<(Seq<char>, ModelFacts)>,
    found: Seq<(Seq<char>, ModelFacts)>,
    m: (Seq<char>, ModelFacts),
    other: Seq<char>,
)
    ensures
        entry_of(models_after(known, found.push(m)), m.0) == Some(m.1),
        other != m.0 ==> entry_of(models_after(known, found.push(m)), other) == entry_of(
            models_after(known, found),
            other,
        ),
        models_after(known, seq![]) == known,
{
    assert(found.push(m).drop_last() =~= found);
    law_table_keeps_what_it_is_given(models_after(known, found), m.0, m.1, other);
}

/// Of a list of parameters "stop" is left out, and nothing else; what is no list stays.
pub proof fn law_only_stop_is_left_out(v: Seq<JsonValue>, x: JsonValue, other: JsonValue)
    ensures
        without_stop(JsonValue::Arr(v)) == JsonValue::Arr(leaving_out(v, "stop"@)),
        leaving_out(v, "stop"@).contains(x) <==> v.contains(x) && x != JsonValue::Str("stop"@),
        leaving_out(v.push(x), "stop"@) == (if x == JsonValue::Str("stop"@) {
            leaving_out(v, "stop"@)
        } else {
            leaving_out(v, "stop"@).push(x)
        }),
        !(other is Arr) ==> without_stop(other) == other,
    decreases v.len(),
{
    assert(v.push(x).drop_last() =~= v);
    if v.len() > 0 {
        let front = v.drop_last();
        let before = leaving_out(front, "stop"@);
        let all = leaving_out(v, "stop"@);
        law_only_stop_is_left_out(front, x, other);
        if all.contains(x) {
            let i = choose|i: int| 0 <= i < all.len() && all[i] == x;
            if i < before.len() {
                assert(before[i] == x);
                let j = choose|j: int| 0 <= j < front.len() && front[j] == x;
                assert(v[j] == x);
            } else {
                assert(v[v.len() - 1] == x);
            }
        }
        if v.contains(x) && x != JsonValue::Str("stop"@) {
            let j = choose|j: int| 0 <= j < v.len() && v[j] == x;
            if j < front.len() {
                assert(front[j] == x);
                let i = choose|i: int| 0 <= i < before.len() && before[i] == x;
                assert(all[i] == x);
            } else {
                assert(all[before.len() as int] == x);
            }
        }
    } else {
        assert(!leaving_out(v, "stop"@).contains(x));
    }
}

/// A listing is the list under "data", or a list that stands for itself; and it is asked for
/// beside the address for completions, but for two providers.
pub proof fn law_listings_are_found(
    answer: JsonValue,
    list: Seq<JsonValue>,
    id: Seq<char>,
    base: Seq<char>,
)
    ensures
        elements_at(answer, "data"@) == Some(list) ==> listing_of(answer) == Ok::<
            Seq<JsonValue>,
            Seq<char>,
        >(list),
        listing_of(JsonValue::Arr(list)) == Ok::<Seq<JsonValue>, Seq<char>>(list),
        answer.get("data"@) is Some && elements_at(answer, "data"@) is None ==> listing_of(answer)
            is Err,
        listing_url("infomaniak"@, base)
            == "https://api.infomaniak.com/1/ai/models?with=pricing"@,
        listing_url("tinfoil"@, base) == "https://inference.tinfoil.sh/v1/models"@,
        id != "infomaniak"@ && id != "tinfoil"@ && !stands_in(
            "/chat/completions"@,
            base + "/chat/completion"@,
        ) ==> listing_url(id, base + "/chat/completions"@) == base + "/models"@,
{
    reveal_strlit("tinfoil");
    reveal_strlit("infomaniak");
    assert("tinfoil"@.len() == 7 && "infomaniak"@.len() == 10);
    let p = "/chat/completions"@;
    let none = Seq::<char>::empty();
    assert(p.len() == 17 && p.drop_last() =~= "/chat/completion"@) by {
        reveal_strlit("/chat/completions");
        reveal_strlit("/chat/completion");
    }
    law_occurrences_are_replaced(base, p, none, "/models"@);
    assert(base + p + none =~= base + p);
    lemma_nothing_in_nothing(p);
    law_occurrences_are_replaced(none, p, none, "/models"@);
    assert(base + "/models"@ + none =~= base + "/models"@);
}

proof fn lemma_nothing_in_nothing(p: Seq<char>)
    requires
        p.len() > 0,
    ensures
        !stands_in(p, Seq::<char>::empty()),
{
    if stands_in(p, Seq::<char>::empty()) {
        let (a, b) = choose|a: Seq<char>, b: Seq<char>|
            Seq::<char>::empty() == #[trigger] (a + p + b);
        assert((a + p + b).len() > 0);
    }
}

/// Every entry of a listing is read with the price that belongs to it.
pub proof fn law_entries_have_their_prices(
    v: Seq<JsonValue>,
    prices: Seq<(u64, u64)>,
    servers: Seq<(Seq<char>, Seq<char>)>,
    i: int,
)
    requires
        0 <= i < v.len(),
    ensures
        chutes::models_found(v, prices).len() == v.len(),
        chutes::models_found(v, prices)[i] == chutes::model_of(v[i], prices[i]),
        infomaniak::models_found(v, prices).len() == v.len(),
        infomaniak::models_found(v, prices)[i] == infomaniak::model_of(v[i], prices[i]),
        tinfoil::models_found(v, prices).len() == v.len(),
        tinfoil::models_found(v, prices)[i] == tinfoil::model_of(v[i], prices[i]),
        nearai_models::models_found(v, prices, servers).len() == v.len(),
        nearai_models::models_found(v, prices, servers)[i] == nearai_models::model_of(
            v[i],
            prices[i],
            servers,
        ),
{
}

/// The prices of an entry are a list, of which the first in the first currency counts.
pub proof fn law_prices_are_listed(v: JsonValue, list: Seq<JsonValue>)
    ensures
        elements_at(v, "prices"@) == Some(list) ==> infomaniak::price_of(v) == counting_price(
            list,
            0,
        ),
        elements_at(v, "prices"@) is None ==> infomaniak::price_of(v) is None,
{
}

/// The servers are those of the endpoints that a mapping lists; and what a model reads and
/// writes may be told in the description of its architecture.
pub proof fn law_mappings_are_read(
    mapping: JsonValue,
    list: Seq<JsonValue>,
    v: JsonValue,
    architecture: JsonValue,
    inputs: Seq<JsonValue>,
    outputs: Seq<JsonValue>,
)
    ensures
        elements_at(mapping, "endpoints"@) == Some(list) ==> nearai_models::servers_of(mapping)
            == servers_in(list),
        elements_at(mapping, "endpoints"@) is None ==> nearai_models::servers_of(mapping).len()
            == 0,
        v.get("input_modalities"@) is None && v.get("output_modalities"@) is None && v.get(
            "architecture"@,
        ) == Some(architecture) && elements_at(architecture, "inputModalities"@) == Some(inputs)
            && elements_at(architecture, "outputModalities"@) == Some(outputs) ==> (
        nearai_models::is_text_only(v) <==> inputs.len() > 0 && outputs.len() > 0 && (forall|i: int|
            0 <= i < inputs.len() ==> (#[trigger] inputs[i]).text() == Some("text"@)) && (forall|
            i: int,
        |
            0 <= i < outputs.len() ==> (#[trigger] outputs[i]).text() == Some("text"@))),
{
}

} // verus!
