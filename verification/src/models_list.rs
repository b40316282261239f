//! The list of models that clients ask for.

use vstd::prelude::*;

use crate::catalog::drop_stop;
use crate::catalog::without_stop;
use crate::catalog::words_value;
use crate::currency::code_of;
use crate::currency::Currency;
use crate::json::fields_of;
use crate::json::lemma_array_view;
use crate::json::lemma_object_view;
use crate::json::values_of;
use crate::json::Json;
use crate::json::JsonValue;
use crate::order::is_stable_order;
use crate::query::pair_of;
use crate::query::split_pair;
use crate::ranking::by_text;
use crate::ranking::order_by_text;
use crate::state::DynamicModelInfo;
use crate::state::ModelFacts;
use crate::text;
use crate::text::chars_of;
use crate::text::has_suffix;
use crate::text::split_on;
use crate::text::string_of;
use crate::text::text_eq;
use crate::text::unicode_uppercase;
use crate::text::without_suffixes;

verus! {

// ---------------------------------------------------------------------------
// Which models, and at what price
// ---------------------------------------------------------------------------

/// The places, before `n`, of the models for which there is an offer.
pub open spec fn offered_before(has_offer: Seq<bool>, n: int) -> Seq<int>
    decreases n,
{
    if n <= 0 {
        seq![]
    } else if has_offer[n - 1] {
        offered_before(has_offer, n - 1).push(n - 1)
    } else {
        offered_before(has_offer, n - 1)
    }
}

/// Finds the models that are listed: those for which there is an offer, in their order.
pub fn offered_models(has_offer: &Vec<bool>) -> (r: Vec<usize>)
    ensures
        r@.map_values(|i: usize| i as int) == offered_before(has_offer@, has_offer@.len() as int),
        forall|k: int| 0 <= k < r@.len() ==> (#[trigger] r@[k]) < has_offer@.len() && has_offer@[
            r@[k] as int
        ],
{
    let mut out: Vec<usize> = Vec::new();
    let mut i: usize = 0;
    proof {
        assert(out@.map_values(|i: usize| i as int) =~= Seq::<int>::empty());
    }
    while i < has_offer.len()
        invariant
            i <= has_offer@.len(),
            out@.map_values(|i: usize| i as int) == offered_before(has_offer@, i as int),
            forall|k: int|
                0 <= k < out@.len() ==> (#[trigger] out@[k]) < has_offer@.len() && has_offer@[
                    out@[k] as int
                ],
        decreases has_offer@.len() - i,
    {
        if has_offer[i] {
            let ghost before = out@;
            out.push(i);
            proof {
                assert(out@.map_values(|i: usize| i as int) =~= before.map_values(
                    |i: usize| i as int,
                ).push(i as int));
            }
        }
        i = i + 1;
    }
    out
}

/// A price as it is listed: without zeros at its end, nor the point that they leave there.
pub open spec fn price_shown(digits: Seq<char>) -> Seq<char> {
    let short = without_suffixes(digits, "0"@);
    if has_suffix(short, "."@) {
        short.take(short.len() - 1)
    } else {
        short
    }
}

/// Shortens the digits of a price.
pub fn trimmed_price(digits: &str) -> (r: String)
    ensures
        r@ == price_shown(digits@),
{
    proof {
        reveal_strlit("0");
        reveal_strlit(".");
    }
    let short = text::trim_end_matches(digits, "0");
    if text::ends_with(short.as_str(), ".") {
        let v = chars_of(short.as_str());
        let n: usize = v.len() - 1;
        proof {
            assert(short@.subrange(0, n as int) =~= short@.take(n as int));
        }
        string_of(v.as_slice(), 0, n)
    } else {
        short
    }
}

/// What an answer costs as it is stated: without zeros and points at the end; nothing at all
/// is stated as zero.
pub open spec fn cost_shown(digits: Seq<char>) -> Seq<char> {
    let short = without_suffixes(without_suffixes(digits, "0"@), "."@);
    if short.len() == 0 {
        "0.0"@
    } else {
        short
    }
}

/// Shortens the digits of a cost.
pub fn trimmed_cost(digits: &str) -> (r: String)
    ensures
        r@ == cost_shown(digits@),
{
    proof {
        reveal_strlit("0");
        reveal_strlit(".");
    }
    let zeros = text::trim_end_matches(digits, "0");
    let short = text::trim_end_matches(zeros.as_str(), ".");
    if short.as_str().is_empty() {
        "0.0".to_string()
    } else {
        short
    }
}

// ---------------------------------------------------------------------------
// The query
// ---------------------------------------------------------------------------

/// What a client asks to be told of models.
#[derive(Debug, Clone, Copy, PartialEq, Eq, Structural)]
pub struct ListQuery {
    pub currency: Currency,
    pub detailed: bool,
}

/// The currency of a code in either case, or else the one before.
pub open spec fn currency_or(code: Seq<char>, otherwise: Currency) -> Currency {
    let c = unicode_uppercase(code);
    if c == "USD"@ {
        Currency::USD
    } else if c == "EUR"@ {
        Currency::EUR
    } else if c == "JPY"@ {
        Currency::JPY
    } else if c == "CHF"@ {
        Currency::CHF
    } else {
        otherwise
    }
}

/// What is asked once one more pair of the query is known.
pub open spec fn with_pair(q: ListQuery, s: Seq<char>) -> ListQuery {
    match pair_of(s) {
        Some((k, v)) => if k == "currency"@ {
            ListQuery { currency: currency_or(v, q.currency), ..q }
        } else if k == "detailed"@ && v == "true"@ {
            ListQuery { detailed: true, ..q }
        } else {
            q
        },
        None => q,
    }
}

/// What some pairs of a query ask.
pub open spec fn asked_in(pairs: Seq<Seq<char>>) -> ListQuery
    decreases pairs.len(),
{
    if pairs.len() == 0 {
        ListQuery { currency: Currency::USD, detailed: false }
    } else {
        with_pair(asked_in(pairs.drop_last()), pairs.last())
    }
}

/// What an address asks: by what stands between its first question mark and the next.
pub open spec fn asked_of(uri: Seq<char>) -> ListQuery {
    let parts = split_on(uri, '?');
    if parts.len() > 1 {
        asked_in(split_on(parts[1], '&'))
    } else {
        asked_in(seq![])
    }
}

/// Reads what an address asks.
pub fn parse_list_query(uri: &str) -> (r: ListQuery)
    ensures
        r == asked_of(uri@),
{
    let mut out = ListQuery { currency: Currency::USD, detailed: false };
    let parts = text::split(uri, '?');
    proof {
        assert(text::views(parts@).len() == parts@.len());
    }
    if parts.len() < 2 {
        return out;
    }
    proof {
        assert(text::views(parts@)[1] == parts@[1]@);
    }
    let pairs = text::split(parts[1].as_str(), '&');
    let ghost all = text::views(pairs@);
    let mut i: usize = 0;
    proof {
        assert(all.take(0) =~= seq![]);
    }
    while i < pairs.len()
        invariant
            i <= pairs@.len(),
            all == text::views(pairs@),
            out == asked_in(all.take(i as int)),
        decreases pairs@.len() - i,
    {
        proof {
            assert(all.take(i + 1).drop_last() =~= all.take(i as int));
            assert(all.take(i + 1).last() == pairs@[i as int]@);
        }
        if let Some((k, v)) = split_pair(pairs[i].as_str()) {
            if text_eq(k.as_str(), "currency") {
                let known = Currency::from_str(v.as_str());
                proof {
                    assert(unicode_uppercase(v@) != code_of(Currency::USD) || known is Some);
                    assert(unicode_uppercase(v@) != code_of(Currency::EUR) || known is Some);
                    assert(unicode_uppercase(v@) != code_of(Currency::JPY) || known is Some);
                    assert(unicode_uppercase(v@) != code_of(Currency::CHF) || known is Some);
                }
                if let Some(c) = known {
                    proof {
                        if unicode_uppercase(v@) == code_of(Currency::USD) {
                            crate::currency::law_codes_differ(c, Currency::USD);
                        }
                        if unicode_uppercase(v@) == code_of(Currency::EUR) {
                            crate::currency::law_codes_differ(c, Currency::EUR);
                        }
                        if unicode_uppercase(v@) == code_of(Currency::JPY) {
                            crate::currency::law_codes_differ(c, Currency::JPY);
                        }
                        if unicode_uppercase(v@) == code_of(Currency::CHF) {
                            crate::currency::law_codes_differ(c, Currency::CHF);
                        }
                    }
                    out.currency = c;
                }
            } else if text_eq(k.as_str(), "detailed") && text_eq(v.as_str(), "true") {
                out.detailed = true;
            }
        }
        i = i + 1;
    }
    proof {
        assert(all.take(all.len() as int) =~= all);
    }
    out
}

// ---------------------------------------------------------------------------
// Entries
// ---------------------------------------------------------------------------

/// What is told of a model in short.
pub open spec fn short_value(id: Seq<char>) -> JsonValue {
    JsonValue::Obj(
        seq![
            ("id"@, JsonValue::Str(id)),
            ("object"@, JsonValue::Str("model"@)),
            ("created"@, JsonValue::Unsigned(0)),
            ("owned_by"@, JsonValue::Str("system"@)),
        ],
    )
}

/// The price of a model as it is told: for a million tokens of each kind, by the bits of the
/// doubles, and for one token, as text.
pub struct Pricing {
    pub input: u64,
    pub output: u64,
    pub prompt: String,
    pub completion: String,
    pub currency: Currency,
}

/// What is told of a price.
pub open spec fn pricing_value(p: Pricing) -> JsonValue {
    JsonValue::Obj(
        seq![
            ("input"@, JsonValue::Float(p.input)),
            ("output"@, JsonValue::Float(p.output)),
            ("prompt"@, JsonValue::Str(p.prompt@)),
            ("completion"@, JsonValue::Str(p.completion@)),
            ("image"@, JsonValue::Str("0"@)),
            ("request"@, JsonValue::Str("0"@)),
            ("currency"@, JsonValue::Str(code_of(p.currency))),
        ],
    )
}

/// An array that says that it is about text.
pub open spec fn text_only() -> JsonValue {
    words_value(seq!["text"@])
}

/// What is told of a model in full.
pub open spec fn detailed_value(
    id: Seq<char>,
    m: ModelFacts,
    p: Pricing,
    providers: Seq<Seq<char>>,
) -> JsonValue {
    JsonValue::Obj(
        seq![
            ("id"@, JsonValue::Str(id)),
            ("object"@, JsonValue::Str("model"@)),
            ("created"@, JsonValue::Unsigned(0)),
            ("owned_by"@, JsonValue::Str("system"@)),
            ("name"@, JsonValue::Str(m.name)),
            ("pricing"@, pricing_value(p)),
            ("context_length"@, JsonValue::Unsigned(m.context)),
            ("max_output_length"@, JsonValue::Unsigned(m.completion)),
            (
                "architecture"@,
                JsonValue::Obj(
                    seq![("inputModalities"@, text_only()), ("outputModalities"@, text_only())],
                ),
            ),
            ("input_modalities"@, text_only()),
            ("output_modalities"@, text_only()),
            ("supported_sampling_parameters"@, without_stop(m.sampling)),
            ("supported_features"@, m.features),
            (
                "top_provider"@,
                JsonValue::Obj(
                    seq![
                        ("context_length"@, JsonValue::Unsigned(m.context)),
                        ("max_completion_tokens"@, JsonValue::Unsigned(m.completion)),
                        ("is_moderated"@, JsonValue::Bool(false)),
                    ],
                ),
            ),
            ("providers"@, words_value(providers)),
        ],
    )
}

fn field(out: &mut Vec<(String, Json)>, key: &str, value: Json)
    ensures
        fields_of(final(out)@) == fields_of(old(out)@).push((key@, value@)),
{
    let ghost before = fields_of(out@);
    out.push((key.to_string(), value));
    proof {
        assert(fields_of(out@) =~= before.push((key@, value@)));
    }
}

fn texts_json(v: &Vec<String>) -> (r: Json)
    ensures
        r@ == words_value(text::views(v@)),
{
    let mut out: Vec<Json> = Vec::new();
    let mut i: usize = 0;
    while i < v.len()
        invariant
            i <= v@.len(),
            out@.len() == i,
            forall|j: int| 0 <= j < i ==> (#[trigger] out@[j])@ == JsonValue::Str(v@[j]@),
        decreases v@.len() - i,
    {
        out.push(Json::Str(v[i].clone()));
        i = i + 1;
    }
    proof {
        lemma_array_view(out);
        assert(values_of(out@) =~= text::views(v@).map_values(|w: Seq<char>| JsonValue::Str(w)));
    }
    Json::Arr(out)
}

fn only_text() -> (r: Json)
    ensures
        r@ == text_only(),
{
    let v: Vec<String> = vec!["text".to_string()];
    proof {
        assert(text::views(v@) =~= seq!["text"@]);
    }
    texts_json(&v)
}

/// Tells of a model in short.
pub fn short_item(id: &str) -> (r: Json)
    ensures
        r@ == short_value(id@),
{
    let mut out: Vec<(String, Json)> = Vec::new();
    proof {
        assert(fields_of(out@) =~= seq![]);
    }
    field(&mut out, "id", Json::Str(id.to_string()));
    field(&mut out, "object", Json::Str("model".to_string()));
    field(&mut out, "created", Json::Unsigned(0));
    field(&mut out, "owned_by", Json::Str("system".to_string()));
    proof {
        lemma_object_view(out);
        assert(fields_of(out@) =~= short_value(id@)->Obj_0);
    }
    Json::Obj(out)
}

fn pricing_json(p: &Pricing) -> (r: Json)
    ensures
        r@ == pricing_value(*p),
{
    let mut out: Vec<(String, Json)> = Vec::new();
    proof {
        assert(fields_of(out@) =~= seq![]);
    }
    field(&mut out, "input", Json::Float(p.input));
    field(&mut out, "output", Json::Float(p.output));
    field(&mut out, "prompt", Json::Str(p.prompt.clone()));
    field(&mut out, "completion", Json::Str(p.completion.clone()));
    field(&mut out, "image", Json::Str("0".to_string()));
    field(&mut out, "request", Json::Str("0".to_string()));
    field(&mut out, "currency", Json::Str(p.currency.to_str().to_string()));
    proof {
        lemma_object_view(out);
        assert(fields_of(out@) =~= pricing_value(*p)->Obj_0);
    }
    Json::Obj(out)
}

/// Tells of a model in full.
pub fn detailed_item(id: &str, info: &DynamicModelInfo, pricing: &Pricing, providers: &Vec<String>) -> (r:
    Json)
    ensures
        r@ == detailed_value(id@, info.deep_view(), *pricing, text::views(providers@)),
{
    let mut architecture: Vec<(String, Json)> = Vec::new();
    proof {
        assert(fields_of(architecture@) =~= seq![]);
    }
    field(&mut architecture, "inputModalities", only_text());
    field(&mut architecture, "outputModalities", only_text());
    proof {
        lemma_object_view(architecture);
        assert(fields_of(architecture@) =~= seq![
            ("inputModalities"@, text_only()),
            ("outputModalities"@, text_only()),
        ]);
    }
    let mut top: Vec<(String, Json)> = Vec::new();
    proof {
        assert(fields_of(top@) =~= seq![]);
    }
    field(&mut top, "context_length", Json::Unsigned(info.context_length));
    field(&mut top, "max_completion_tokens", Json::Unsigned(info.max_completion_tokens));
    field(&mut top, "is_moderated", Json::Bool(false));
    proof {
        lemma_object_view(top);
        assert(fields_of(top@) =~= seq![
            ("context_length"@, JsonValue::Unsigned(info.context_length)),
            ("max_completion_tokens"@, JsonValue::Unsigned(info.max_completion_tokens)),
            ("is_moderated"@, JsonValue::Bool(false)),
        ]);
    }
    let mut out: Vec<(String, Json)> = Vec::new();
    proof {
        assert(fields_of(out@) =~= seq![]);
    }
    field(&mut out, "id", Json::Str(id.to_string()));
    field(&mut out, "object", Json::Str("model".to_string()));
    field(&mut out, "created", Json::Unsigned(0));
    field(&mut out, "owned_by", Json::Str("system".to_string()));
    field(&mut out, "name", Json::Str(info.name.clone()));
    field(&mut out, "pricing", pricing_json(pricing));
    field(&mut out, "context_length", Json::Unsigned(info.context_length));
    field(&mut out, "max_output_length", Json::Unsigned(info.max_completion_tokens));
    field(&mut out, "architecture", Json::Obj(architecture));
    field(&mut out, "input_modalities", only_text());
    field(&mut out, "output_modalities", only_text());
    field(
        &mut out,
        "supported_sampling_parameters",
        drop_stop(&info.supported_sampling_parameters),
    );
    field(&mut out, "supported_features", info.supported_features.copy());
    field(&mut out, "top_provider", Json::Obj(top));
    field(&mut out, "providers", texts_json(providers));
    proof {
        lemma_object_view(out);
        assert(fields_of(out@) =~= detailed_value(
            id@,
            info.deep_view(),
            *pricing,
            text::views(providers@),
        )->Obj_0);
    }
    Json::Obj(out)
}

// ---------------------------------------------------------------------------
// The list
// ---------------------------------------------------------------------------

/// The entries of a list, in the order of the places.
pub open spec fn arranged(items: Seq<JsonValue>, p: Seq<usize>) -> Seq<JsonValue> {
    Seq::new(items.len(), |i: int| items[p[i] as int])
}

/// The list of models.
pub open spec fn list_value(items: Seq<JsonValue>) -> JsonValue {
    JsonValue::Obj(seq![("object"@, JsonValue::Str("list"@)), ("data"@, JsonValue::Arr(items))])
}

/// Puts the list together, its entries in the order of their identifiers.
pub fn models_response(ids: &Vec<String>, items: &Vec<Json>) -> (r: Json)
    requires
        ids@.len() == items@.len(),
    ensures
        exists|p: Seq<usize>| #[trigger]
            is_stable_order(p, ids@.len() as int, by_text(text::views(ids@))) && r@ == list_value(
                arranged(values_of(items@), p),
            ),
{
    let p = order_by_text(ids);
    let ghost v = values_of(items@);
    let mut data: Vec<Json> = Vec::new();
    let mut k: usize = 0;
    while k < items.len()
        invariant
            k <= items@.len(),
            ids@.len() == items@.len(),
            v == values_of(items@),
            is_stable_order(p@, ids@.len() as int, by_text(text::views(ids@))),
            data@.len() == k,
            forall|j: int| 0 <= j < k ==> (#[trigger] data@[j])@ == v[p@[j] as int],
        decreases items@.len() - k,
    {
        proof {
            assert(p@[k as int] < ids@.len());
        }
        data.push(items[p[k]].copy());
        k = k + 1;
    }
    proof {
        lemma_array_view(data);
        assert(values_of(data@) =~= arranged(v, p@));
    }
    let mut out: Vec<(String, Json)> = Vec::new();
    proof {
        assert(fields_of(out@) =~= seq![]);
    }
    field(&mut out, "object", Json::Str("list".to_string()));
    field(&mut out, "data", Json::Arr(data));
    proof {
        lemma_object_view(out);
        assert(fields_of(out@) =~= list_value(arranged(v, p@))->Obj_0);
        assert(is_stable_order(p@, ids@.len() as int, by_text(text::views(ids@))));
    }
    Json::Obj(out)
}

} // verus!
