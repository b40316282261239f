//! The models of Tinfoil.

use vstd::prelude::*;

use crate::catalog::collected;
use crate::catalog::has_word;
use crate::catalog::holds_word;
use crate::catalog::words_json;
use crate::catalog::words_value;
use crate::json::elements_at;
use crate::json::lemma_array_view;
use crate::json::text_at;
use crate::json::unsigned_at;
use crate::json::values_of;
use crate::json::Json;
use crate::json::JsonValue;
use crate::state::DynamicModelInfo;
use crate::state::ModelFacts;
use crate::table;
use crate::table::entries;
use crate::text::text_eq;

verus! {

/// The name under which a model is offered: some are spelled as elsewhere.
pub open spec fn offered_name(id: Seq<char>) -> Seq<char> {
    if id == "glm-5-1"@ {
        "glm-5.1"@
    } else if id == "gemma4-31b"@ {
        "gemma-4-31b"@
    } else if id == "kimi-k2-6"@ {
        "kimi-k2.6"@
    } else if id == "llama3-3-70b"@ {
        "llama-3.3-70b-instruct"@
    } else {
        id
    }
}

/// Whether an entry describes a model for text: by its type, or by what it takes.
pub open spec fn is_text_model(v: JsonValue) -> bool {
    match text_at(v, "type"@) {
        Some(t) => t == "chat"@ || t == "safety"@,
        None => match elements_at(v, "input_modalities"@) {
            Some(m) => has_word(m, "text"@),
            None => false,
        },
    }
}

/// Whether an entry describes a model of this provider.
pub open spec fn is_own_model(v: JsonValue) -> bool {
    text_at(v, "owned_by"@) == Some("tinfoil"@) || match elements_at(v, "providers"@) {
        Some(p) => has_word(p, "tinfoil"@),
        None => false,
    }
}

/// How long a context a model takes.
pub open spec fn context_of(v: JsonValue) -> u64 {
    match unsigned_at(v, "context_length"@) {
        Some(n) => n,
        None => match unsigned_at(v, "context_window"@) {
            Some(n) => n,
            None => 8192,
        },
    }
}

/// How long an answer a model gives.
pub open spec fn completion_of(v: JsonValue) -> u64 {
    match unsigned_at(v, "max_output_length"@) {
        Some(n) => n,
        None => match v.get("top_provider"@) {
            Some(top) => match unsigned_at(top, "max_completion_tokens"@) {
                Some(n) => n,
                None => 4096,
            },
            None => 4096,
        },
    }
}

/// The sampling parameters of every model.
pub open spec fn sampling_words() -> Seq<Seq<char>> {
    seq!["temperature"@, "top_p"@, "max_tokens"@]
}

/// The model that an entry of the listing describes, at a price.
pub open spec fn model_of(v: JsonValue, price: (u64, u64)) -> Option<(Seq<char>, ModelFacts)> {
    match text_at(v, "id"@) {
        Some(id) => if is_text_model(v) && is_own_model(v) {
            Some(
                (
                    offered_name(id),
                    ModelFacts {
                        upstream: id,
                        name: offered_name(id),
                        price_input: price.0,
                        price_output: price.1,
                        context: context_of(v),
                        completion: completion_of(v),
                        sampling: words_value(sampling_words()),
                        features: JsonValue::Arr(seq![]),
                        endpoint: None,
                    },
                ),
            )
        } else {
            None
        },
        None => None,
    }
}

/// What the entries of the listing describe.
pub open spec fn models_found(v: Seq<JsonValue>, prices: Seq<(u64, u64)>) -> Seq<
    Option<(Seq<char>, ModelFacts)>,
> {
    Seq::new(v.len(), |i: int| model_of(v[i], prices[i]))
}

fn name_offered(id: &str) -> (r: String)
    ensures
        r@ == offered_name(id@),
{
    if text_eq(id, "glm-5-1") {
        "glm-5.1".to_string()
    } else if text_eq(id, "gemma4-31b") {
        "gemma-4-31b".to_string()
    } else if text_eq(id, "kimi-k2-6") {
        "kimi-k2.6".to_string()
    } else if text_eq(id, "llama3-3-70b") {
        "llama-3.3-70b-instruct".to_string()
    } else {
        id.to_string()
    }
}

fn for_text(v: &Json) -> (r: bool)
    ensures
        r == is_text_model(v@),
{
    match v.text_at("type") {
        Some(t) => text_eq(t.as_str(), "chat") || text_eq(t.as_str(), "safety"),
        None => match v.elements_at("input_modalities") {
            Some(m) => holds_word(m, "text"),
            None => false,
        },
    }
}

fn is_own(v: &Json) -> (r: bool)
    ensures
        r == is_own_model(v@),
{
    let owned = match v.text_at("owned_by") {
        Some(s) => text_eq(s.as_str(), "tinfoil"),
        None => false,
    };
    let provided = match v.elements_at("providers") {
        Some(p) => holds_word(p, "tinfoil"),
        None => false,
    };
    owned || provided
}

fn read_context(v: &Json) -> (r: u64)
    ensures
        r == context_of(v@),
{
    match v.unsigned_at("context_length") {
        Some(n) => n,
        None => match v.unsigned_at("context_window") {
            Some(n) => n,
            None => 8192,
        },
    }
}

fn read_completion(v: &Json) -> (r: u64)
    ensures
        r == completion_of(v@),
{
    match v.unsigned_at("max_output_length") {
        Some(n) => n,
        None => match v.get("top_provider") {
            Some(top) => match top.unsigned_at("max_completion_tokens") {
                Some(n) => n,
                None => 4096,
            },
            None => 4096,
        },
    }
}

fn read_model(v: &Json, price: (u64, u64)) -> (r: Option<(String, DynamicModelInfo)>)
    ensures
        match r {
            Some(m) => model_of(v@, price) == Some((m.0@, m.1.deep_view())),
            None => model_of(v@, price) is None,
        },
{
    let id = match v.text_at("id") {
        Some(s) => s,
        None => {
            return None;
        },
    };
    if !for_text(v) || !is_own(v) {
        return None;
    }
    let name = name_offered(id.as_str());
    let words: Vec<&'static str> = vec!["temperature", "top_p", "max_tokens"];
    proof {
        assert(words@.map_values(|s: &'static str| s@) =~= sampling_words());
    }
    let none: Vec<Json> = Vec::new();
    proof {
        lemma_array_view(none);
        assert(values_of(none@) =~= seq![]);
    }
    let info = DynamicModelInfo {
        upstream_model_name: id.clone(),
        name: name.clone(),
        price_input_1m: price.0,
        price_output_1m: price.1,
        context_length: read_context(v),
        max_completion_tokens: read_completion(v),
        supported_sampling_parameters: words_json(&words),
        supported_features: Json::Arr(none),
        direct_endpoint: None,
    };
    Some((name, info))
}

/// Reads the models out of the listing. `prices` are those of the entries, in the same order.
pub fn parse_models(data: &Vec<Json>, prices: &Vec<(u64, u64)>) -> (r: Vec<
    (String, DynamicModelInfo),
>)
    requires
        prices@.len() == data@.len(),
    ensures
        entries(r@) == collected(models_found(values_of(data@), prices@)),
{
    let ghost found = models_found(values_of(data@), prices@);
    let mut out: Vec<(String, DynamicModelInfo)> = Vec::new();
    let mut i: usize = 0;
    proof {
        assert(found.take(0) =~= seq![]);
        assert(entries(out@) =~= seq![]);
    }
    while i < data.len()
        invariant
            i <= data@.len(),
            prices@.len() == data@.len(),
            found == models_found(values_of(data@), prices@),
            entries(out@) == collected(found.take(i as int)),
        decreases data@.len() - i,
    {
        proof {
            assert(found.take(i + 1).drop_last() =~= found.take(i as int));
            assert(found.take(i + 1).last() == model_of(data@[i as int]@, prices@[i as int]));
        }
        if let Some((name, info)) = read_model(&data[i], prices[i]) {
            table::insert(&mut out, name.as_str(), info);
        }
        i = i + 1;
    }
    proof {
        assert(found.take(found.len() as int) =~= found);
    }
    out
}

} // verus!
