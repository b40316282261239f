//! The models of Infomaniak, and the one order of messages that they take.

use vstd::prelude::*;

use crate::catalog::collected;
use crate::catalog::number_at_or;
use crate::catalog::number_or;
use crate::chat::said_in;
use crate::chat::Message;
use crate::chat::Said;
use crate::json::elements_at;
use crate::json::text_at;
use crate::json::values_of;
use crate::json::Json;
use crate::json::JsonValue;
use crate::models::standard_name;
use crate::models::standardize_model_name;
use crate::state::DynamicModelInfo;
use crate::state::ModelFacts;
use crate::table;
use crate::table::entries;
use crate::text;
use crate::text::text_eq;

verus! {

// ---------------------------------------------------------------------------
// Models
// ---------------------------------------------------------------------------

/// The model that an entry of the listing describes, at a price: one for language.
pub open spec fn model_of(v: JsonValue, price: (u64, u64)) -> Option<(Seq<char>, ModelFacts)> {
    match text_at(v, "name"@) {
        Some(id) => if text_at(v, "type"@) == Some("llm"@) {
            Some(
                (
                    standard_name(id),
                    ModelFacts {
                        upstream: id,
                        name: standard_name(id),
                        price_input: price.0,
                        price_output: price.1,
                        context: number_or(v, "max_token_input"@, 8192),
                        completion: 4096,
                        sampling: JsonValue::Null,
                        features: JsonValue::Null,
                        endpoint: None,
                    },
                ),
            )
        } else {
            None
        },
        None => None,
    }
}

/// What the entries of the listing describe.
pub open spec fn models_found(v: Seq<JsonValue>, prices: Seq<(u64, u64)>) -> Seq<
    Option<(Seq<char>, ModelFacts)>,
> {
    Seq::new(v.len(), |i: int| model_of(v[i], prices[i]))
}

/// Whether a price is in the first currency, which is meant where none is named.
pub open spec fn in_first_currency(price: JsonValue) -> bool {
    number_or(price, "currency_id"@, 1) == 1
}

/// The price that counts: the first, at or after `from`, in the first currency.
pub open spec fn counting_price(prices: Seq<JsonValue>, from: int) -> Option<JsonValue>
    decreases prices.len() - from,
{
    if from < 0 || from >= prices.len() {
        None
    } else if in_first_currency(prices[from]) {
        Some(prices[from])
    } else {
        counting_price(prices, from + 1)
    }
}

/// The price of an entry of the listing that counts.
pub open spec fn price_of(v: JsonValue) -> Option<JsonValue> {
    match elements_at(v, "prices"@) {
        Some(prices) => counting_price(prices, 0),
        None => None,
    }
}

/// Finds the price of an entry that counts.
pub fn find_price(v: &Json) -> (r: Option<&Json>)
    ensures
        match r {
            Some(p) => price_of(v@) == Some(p@),
            None => price_of(v@) is None,
        },
{
    let prices = match v.elements_at("prices") {
        Some(p) => p,
        None => {
            return None;
        },
    };
    let ghost all = values_of(prices@);
    let mut i: usize = 0;
    while i < prices.len()
        invariant
            i <= prices@.len(),
            all == values_of(prices@),
            elements_at(v@, "prices"@) == Some(all),
            counting_price(all, 0) == counting_price(all, i as int),
        decreases prices@.len() - i,
    {
        proof {
            assert(all[i as int] == prices@[i as int]@);
        }
        if number_at_or(&prices[i], "currency_id", 1) == 1 {
            return Some(&prices[i]);
        }
        i = i + 1;
    }
    None
}

fn read_model(v: &Json, price: (u64, u64)) -> (r: Option<(String, DynamicModelInfo)>)
    ensures
        match r {
            Some(m) => model_of(v@, price) == Some((m.0@, m.1.deep_view())),
            None => model_of(v@, price) is None,
        },
{
    let language = match v.text_at("type") {
        Some(t) => text_eq(t.as_str(), "llm"),
        None => false,
    };
    if !language {
        return None;
    }
    let id = match v.text_at("name") {
        Some(s) => s,
        None => {
            return None;
        },
    };
    let name = standardize_model_name(id.as_str());
    let info = DynamicModelInfo {
        upstream_model_name: id.clone(),
        name: name.clone(),
        price_input_1m: price.0,
        price_output_1m: price.1,
        context_length: number_at_or(v, "max_token_input", 8192),
        max_completion_tokens: 4096,
        supported_sampling_parameters: Json::Null,
        supported_features: Json::Null,
        direct_endpoint: None,
    };
    Some((name, info))
}

/// Reads the models out of the listing. `prices` are those of the entries, in the same order.
pub fn parse_models(data: &Vec<Json>, prices: &Vec<(u64, u64)>) -> (r: Vec<
    (String, DynamicModelInfo),
>)
    requires
        prices@.len() == data@.len(),
    ensures
        entries(r@) == collected(models_found(values_of(data@), prices@)),
{
    let ghost found = models_found(values_of(data@), prices@);
    let mut out: Vec<(String, DynamicModelInfo)> = Vec::new();
    let mut i: usize = 0;
    proof {
        assert(found.take(0) =~= seq![]);
        assert(entries(out@) =~= seq![]);
    }
    while i < data.len()
        invariant
            i <= data@.len(),
            prices@.len() == data@.len(),
            found == models_found(values_of(data@), prices@),
            entries(out@) == collected(found.take(i as int)),
        decreases data@.len() - i,
    {
        proof {
            assert(found.take(i + 1).drop_last() =~= found.take(i as int));
            assert(found.take(i + 1).last() == model_of(data@[i as int]@, prices@[i as int]));
        }
        if let Some((name, info)) = read_model(&data[i], prices[i]) {
            table::insert(&mut out, name.as_str(), info);
        }
        i = i + 1;
    }
    proof {
        assert(found.take(found.len() as int) =~= found);
    }
    out
}

// ---------------------------------------------------------------------------
// The order of messages
// ---------------------------------------------------------------------------

/// Whether a message instructs the model.
pub open spec fn is_system(m: Said) -> bool {
    m.role == "system"@
}

/// Whether some messages hold one that does not instruct.
pub open spec fn has_turn(v: Seq<Said>) -> bool {
    exists|i: int| 0 <= i < v.len() && !is_system(#[trigger] v[i])
}

/// The messages as they are taken: those that instruct are one, at the start; a later one is
/// the user's.
pub open spec fn normalized(v: Seq<Said>) -> Seq<Said>
    decreases v.len(),
{
    if v.len() == 0 {
        seq![]
    } else {
        let before = normalized(v.drop_last());
        let m = v.last();
        if !is_system(m) {
            before.push(m)
        } else if has_turn(v.drop_last()) {
            before.push(Said { role: "user"@, content: m.content })
        } else if before.len() > 0 {
            before.update(
                0,
                Said { role: before[0].role, content: before[0].content + "\n\n"@ + m.content },
            )
        } else {
            before.push(m)
        }
    }
}

/// Puts messages into the order that is taken.
pub fn normalize_messages(messages: Vec<Message>) -> (r: Vec<Message>)
    ensures
        said_in(r@) == normalized(said_in(messages@)),
{
    let ghost all = said_in(messages@);
    let mut out: Vec<Message> = Vec::new();
    let mut seen_turn = false;
    let mut i: usize = 0;
    proof {
        assert(all.take(0) =~= seq![]);
        assert(said_in(out@) =~= seq![]);
    }
    while i < messages.len()
        invariant
            i <= messages@.len(),
            all == said_in(messages@),
            said_in(out@) == normalized(all.take(i as int)),
            seen_turn == has_turn(all.take(i as int)),
        decreases messages@.len() - i,
    {
        let ghost before = said_in(out@);
        let ghost front = all.take(i as int);
        let ghost next = all.take(i + 1);
        let m = &messages[i];
        proof {
            assert(next.drop_last() =~= front);
            assert(next.last() == m.deep_view());
            assert(said_in(out@).len() == out@.len());
            assert forall|j: int| 0 <= j < i implies #[trigger] next[j] == front[j] by {}
            if has_turn(front) {
                let j = choose|j: int| 0 <= j < front.len() && !is_system(#[trigger] front[j]);
                assert(!is_system(next[j]));
            }
        }
        if !text_eq(m.role.as_str(), "system") {
            seen_turn = true;
            out.push(Message { role: m.role.clone(), content: m.content.clone() });
            proof {
                assert(!is_system(next[i as int]));
                assert(said_in(out@) =~= before.push(m.deep_view()));
            }
        } else {
            proof {
                if has_turn(next) {
                    let j = choose|j: int| 0 <= j < next.len() && !is_system(#[trigger] next[j]);
                    assert(j < i);
                    assert(!is_system(front[j]));
                }
            }
            if seen_turn {
                out.push(Message { role: "user".to_string(), content: m.content.clone() });
                proof {
                    assert(said_in(out@) =~= before.push(
                        Said { role: "user"@, content: m.content@ },
                    ));
                }
            } else if out.len() > 0 {
                let joined = text::cat3(out[0].content.as_str(), "\n\n", m.content.as_str());
                let first = Message { role: out[0].role.clone(), content: joined };
                out.set(0, first);
                proof {
                    assert(said_in(out@) =~= before.update(
                        0,
                        Said {
                            role: before[0].role,
                            content: before[0].content + "\n\n"@ + m.content@,
                        },
                    ));
                }
            } else {
                out.push(Message { role: m.role.clone(), content: m.content.clone() });
                proof {
                    assert(said_in(out@) =~= before.push(m.deep_view()));
                }
            }
        }
        i = i + 1;
    }
    proof {
        assert(all.take(all.len() as int) =~= all);
    }
    out
}

/// Only the first message instructs.
pub proof fn law_only_the_first_message_instructs(v: Seq<Said>, i: int)
    requires
        0 < i < normalized(v).len(),
    ensures
        !is_system(normalized(v)[i]),
    decreases v.len(),
{
    if v.len() > 0 {
        let front = v.drop_last();
        let before = normalized(front);
        reveal_strlit("user");
        reveal_strlit("system");
        assert("user"@.len() != "system"@.len());
        if i < before.len() {
            law_only_the_first_message_instructs(front, i);
        }
        if !has_turn(front) {
            lemma_no_turn(front);
        }
    }
}

proof fn lemma_no_turn(v: Seq<Said>)
    requires
        !has_turn(v),
    ensures
        normalized(v).len() <= 1,
    decreases v.len(),
{
    if v.len() > 0 {
        let front = v.drop_last();
        assert(is_system(v[v.len() - 1]));
        if has_turn(front) {
            let j = choose|j: int| 0 <= j < front.len() && !is_system(#[trigger] front[j]);
            assert(!is_system(v[j]));
        }
        lemma_no_turn(front);
    }
}

/// Messages of which only the first instructs are taken as they are.
pub proof fn law_proper_messages_stay(v: Seq<Said>)
    requires
        forall|i: int| 0 < i < v.len() ==> !is_system(#[trigger] v[i]),
    ensures
        normalized(v) == v,
    decreases v.len(),
{
    if v.len() > 0 {
        let front = v.drop_last();
        assert forall|i: int| 0 < i < front.len() implies !is_system(#[trigger] front[i]) by {
            assert(front[i] == v[i]);
        }
        law_proper_messages_stay(front);
        assert(front.push(v.last()) =~= v);
        if v.len() > 1 {
            assert(!is_system(v[v.len() - 1]));
        } else {
            assert(!has_turn(front));
        }
    } else {
        assert(normalized(v) =~= v);
    }
}

} // verus!
