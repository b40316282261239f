//! Reading lists of models: what the providers' own formats have in common.

use vstd::prelude::*;

use crate::json::lemma_array_view;
use crate::json::unsigned_at;
use crate::json::values_of;
use crate::json::Json;
use crate::json::JsonValue;
use crate::models::after_slash;
use crate::models::strip_formats;
use crate::models::strip_organisation;
use crate::models::without_formats;
use crate::state::DynamicModelInfo;
use crate::state::ModelFacts;
use crate::table;
use crate::table::entries;
use crate::table::is_listed_under;
use crate::table::with_entry;
use crate::table::with_listed;
use crate::text;
use crate::text::text_eq;
use crate::text::unicode_lowercase;

verus! {

/// The models that were found, each under its name; a later one takes the place of an
/// earlier one of the same name.
pub open spec fn collected(found: Seq<Option<(Seq<char>, ModelFacts)>>) -> Seq<
    (Seq<char>, ModelFacts),
>
    decreases found.len(),
{
    if found.len() == 0 {
        seq![]
    } else {
        let before = collected(found.drop_last());
        match found.last() {
            Some(m) => with_entry(before, m.0, m.1),
            None => before,
        }
    }
}

/// A number of a value, or what stands for it where there is none.
pub open spec fn number_or(v: JsonValue, key: Seq<char>, otherwise: u64) -> u64 {
    match unsigned_at(v, key) {
        Some(n) => n,
        None => otherwise,
    }
}

/// A value of a value, or what stands for it where there is none.
pub open spec fn value_or(v: JsonValue, key: Seq<char>, otherwise: JsonValue) -> JsonValue {
    match v.get(key) {
        Some(x) => x,
        None => otherwise,
    }
}

/// The elements that are not a given text.
pub open spec fn leaving_out(v: Seq<JsonValue>, word: Seq<char>) -> Seq<JsonValue>
    decreases v.len(),
{
    if v.len() == 0 {
        seq![]
    } else {
        let before = leaving_out(v.drop_last(), word);
        if v.last().text() == Some(word) {
            before
        } else {
            before.push(v.last())
        }
    }
}

/// Sampling parameters without the one for stop words.
pub open spec fn without_stop(v: JsonValue) -> JsonValue {
    match v {
        JsonValue::Arr(e) => JsonValue::Arr(leaving_out(e, "stop"@)),
        _ => v,
    }
}

/// Whether some elements hold a given text.
pub open spec fn has_word(v: Seq<JsonValue>, word: Seq<char>) -> bool {
    exists|i: int| 0 <= i < v.len() && (#[trigger] v[i]).text() == Some(word)
}

/// Whether some elements are all a given text, and there is one.
pub open spec fn only_word(v: Seq<JsonValue>, word: Seq<char>) -> bool {
    v.len() > 0 && forall|i: int| 0 <= i < v.len() ==> (#[trigger] v[i]).text() == Some(word)
}

/// The formats that the names of enclave models end in.
pub open spec fn enclave_formats() -> Seq<Seq<char>> {
    seq!["-FP8"@, "-TEE"@, "-AWQ"@, "-NVFP4"@]
}

/// The name under which an enclave model is offered.
pub open spec fn enclave_name(id: Seq<char>) -> Seq<char> {
    unicode_lowercase(without_formats(after_slash(id), enclave_formats()))
}

/// A number of a value, or what stands for it where there is none.
pub fn number_at_or(v: &Json, key: &str, otherwise: u64) -> (r: u64)
    ensures
        r == number_or(v@, key@, otherwise),
{
    match v.unsigned_at(key) {
        Some(n) => n,
        None => otherwise,
    }
}

/// A copy of a value of a value, or what stands for it where there is none.
pub fn copy_at_or(v: &Json, key: &str, otherwise: Json) -> (r: Json)
    ensures
        r@ == value_or(v@, key@, otherwise@),
{
    match v.get(key) {
        Some(x) => x.copy(),
        None => otherwise,
    }
}

/// Sampling parameters without the one for stop words.
pub fn drop_stop(v: &Json) -> (r: Json)
    ensures
        r@ == without_stop(v@),
{
    match v {
        Json::Arr(elements) => {
            let ghost all = values_of(elements@);
            let mut out: Vec<Json> = Vec::new();
            let mut i: usize = 0;
            proof {
                lemma_array_view(*elements);
                assert(all.take(0) =~= seq![]);
                assert(values_of(out@) =~= seq![]);
            }
            while i < elements.len()
                invariant
                    i <= elements@.len(),
                    all == values_of(elements@),
                    values_of(out@) == leaving_out(all.take(i as int), "stop"@),
                decreases elements@.len() - i,
            {
                let ghost before = values_of(out@);
                proof {
                    assert(all.take(i + 1).drop_last() =~= all.take(i as int));
                    assert(all.take(i + 1).last() == elements@[i as int]@);
                }
                let is_stop = match elements[i].as_str() {
                    Some(s) => text_eq(s.as_str(), "stop"),
                    None => false,
                };
                if !is_stop {
                    out.push(elements[i].copy());
                    proof {
                        assert(values_of(out@) =~= before.push(elements@[i as int]@));
                    }
                }
                i = i + 1;
            }
            proof {
                assert(all.take(all.len() as int) =~= all);
                lemma_array_view(out);
            }
            Json::Arr(out)
        },
        _ => v.copy(),
    }
}

/// Whether some elements hold a given text.
pub fn holds_word(v: &Vec<Json>, word: &str) -> (r: bool)
    ensures
        r == has_word(values_of(v@), word@),
{
    let ghost all = values_of(v@);
    let mut i: usize = 0;
    while i < v.len()
        invariant
            i <= v@.len(),
            all == values_of(v@),
            forall|j: int| 0 <= j < i ==> (#[trigger] all[j]).text() != Some(word@),
        decreases v@.len() - i,
    {
        proof {
            assert(all[i as int] == v@[i as int]@);
        }
        if let Some(s) = v[i].as_str() {
            if text_eq(s.as_str(), word) {
                return true;
            }
        }
        i = i + 1;
    }
    false
}

/// Whether some elements are all a given text, and there is one.
pub fn holds_only_word(v: &Vec<Json>, word: &str) -> (r: bool)
    ensures
        r == only_word(values_of(v@), word@),
{
    let ghost all = values_of(v@);
    let mut i: usize = 0;
    while i < v.len()
        invariant
            i <= v@.len(),
            all == values_of(v@),
            forall|j: int| 0 <= j < i ==> (#[trigger] all[j]).text() == Some(word@),
        decreases v@.len() - i,
    {
        proof {
            assert(all[i as int] == v@[i as int]@);
        }
        let same = match v[i].as_str() {
            Some(s) => text_eq(s.as_str(), word),
            None => false,
        };
        if !same {
            return false;
        }
        i = i + 1;
    }
    v.len() > 0
}

/// The name under which an enclave model is offered.
pub fn name_of_enclave_model(id: &str) -> (r: String)
    ensures
        r@ == enclave_name(id@),
{
    let short = strip_organisation(id);
    let mut formats: Vec<&'static str> = Vec::new();
    formats.push("-FP8");
    formats.push("-TEE");
    formats.push("-AWQ");
    formats.push("-NVFP4");
    proof {
        reveal_strlit("-FP8");
        reveal_strlit("-TEE");
        reveal_strlit("-AWQ");
        reveal_strlit("-NVFP4");
        assert(formats@.map_values(|s: &'static str| s@) =~= enclave_formats());
    }
    let bare = strip_formats(short, &formats);
    bare.as_str().to_lowercase()
}

/// An array of texts.
pub open spec fn words_value(words: Seq<Seq<char>>) -> JsonValue {
    JsonValue::Arr(words.map_values(|w: Seq<char>| JsonValue::Str(w)))
}

/// An array of texts.
pub fn words_json(words: &Vec<&'static str>) -> (r: Json)
    ensures
        r@ == words_value(words@.map_values(|s: &'static str| s@)),
{
    let mut out: Vec<Json> = Vec::new();
    let mut i: usize = 0;
    while i < words.len()
        invariant
            i <= words@.len(),
            out@.len() == i,
            forall|j: int| 0 <= j < i ==> (#[trigger] out@[j])@ == JsonValue::Str(words@[j]@),
        decreases words@.len() - i,
    {
        out.push(Json::Str(words[i].to_string()));
        i = i + 1;
    }
    proof {
        lemma_array_view(out);
        assert(values_of(out@) =~= words@.map_values(|s: &'static str| s@).map_values(
            |w: Seq<char>| JsonValue::Str(w),
        ));
    }
    Json::Arr(out)
}

// ---------------------------------------------------------------------------
// The answer of a provider, and what follows from it
// ---------------------------------------------------------------------------

/// The list of models in a provider's answer, or why there is none.
pub open spec fn listing_of(answer: JsonValue) -> Result<Seq<JsonValue>, Seq<char>> {
    match answer.get("data"@) {
        Some(d) => match d.elements() {
            Some(v) => Ok(v),
            None => Err("Missing 'data' array in /v1/models response"@),
        },
        None => match answer.elements() {
            Some(v) => Ok(v),
            None => Err("Unexpected /v1/models response format"@),
        },
    }
}

/// Finds the list of models in a provider's answer.
pub fn listing(answer: &Json) -> (r: Result<&Vec<Json>, String>)
    ensures
        match r {
            Ok(v) => listing_of(answer@) == Ok::<Seq<JsonValue>, Seq<char>>(values_of(v@)),
            Err(e) => listing_of(answer@) == Err::<Seq<JsonValue>, Seq<char>>(e@),
        },
{
    match answer.get("data") {
        Some(d) => match d.as_array() {
            Some(v) => Ok(v),
            None => Err("Missing 'data' array in /v1/models response".to_string()),
        },
        None => match answer.as_array() {
            Some(v) => Ok(v),
            None => Err("Unexpected /v1/models response format".to_string()),
        },
    }
}

/// Where a provider lists its models.
pub open spec fn listing_url(id: Seq<char>, endpoint: Seq<char>) -> Seq<char> {
    if id == "infomaniak"@ {
        "https://api.infomaniak.com/1/ai/models?with=pricing"@
    } else if id == "tinfoil"@ {
        "https://inference.tinfoil.sh/v1/models"@
    } else {
        text::replaced(endpoint, "/chat/completions"@, "/models"@)
    }
}

/// Where a provider lists its models.
pub fn models_url(id: &str, endpoint: &str) -> (r: String)
    ensures
        r@ == listing_url(id@, endpoint@),
{
    if text_eq(id, "infomaniak") {
        return "https://api.infomaniak.com/1/ai/models?with=pricing".to_string();
    }
    if text_eq(id, "tinfoil") {
        return "https://inference.tinfoil.sh/v1/models".to_string();
    }
    proof {
        reveal_strlit("/chat/completions");
    }
    text::replace(endpoint, "/chat/completions", "/models")
}

/// The models that are known once more have been found.
pub open spec fn models_after(
    known: Seq<(Seq<char>, ModelFacts)>,
    found: Seq<(Seq<char>, ModelFacts)>,
) -> Seq<(Seq<char>, ModelFacts)>
    decreases found.len(),
{
    if found.len() == 0 {
        known
    } else {
        with_entry(models_after(known, found.drop_last()), found.last().0, found.last().1)
    }
}

/// The routes once a provider offers the models that were found.
pub open spec fn routes_after(
    routes: Seq<(Seq<char>, Seq<Seq<char>>)>,
    found: Seq<(Seq<char>, ModelFacts)>,
    provider: Seq<char>,
) -> Seq<(Seq<char>, Seq<Seq<char>>)>
    decreases found.len(),
{
    if found.len() == 0 {
        routes
    } else {
        with_listed(routes_after(routes, found.drop_last(), provider), found.last().0, provider)
    }
}

/// Takes note of the models that a provider offers, and of where each can be had.
pub fn apply_models(
    known: &mut Vec<(String, DynamicModelInfo)>,
    routes: &mut Vec<(String, Vec<String>)>,
    found: &Vec<(String, DynamicModelInfo)>,
    provider: &str,
)
    ensures
        entries(final(known)@) == models_after(entries(old(known)@), entries(found@)),
        entries(final(routes)@) == routes_after(
            entries(old(routes)@),
            entries(found@),
            provider@,
        ),
{
    let ghost all = entries(found@);
    let ghost start = entries(known@);
    let ghost begun = entries(routes@);
    let mut i: usize = 0;
    proof {
        assert(all.take(0) =~= seq![]);
    }
    while i < found.len()
        invariant
            i <= found@.len(),
            all == entries(found@),
            entries(known@) == models_after(start, all.take(i as int)),
            entries(routes@) == routes_after(begun, all.take(i as int), provider@),
        decreases found@.len() - i,
    {
        proof {
            assert(all.take(i + 1).drop_last() =~= all.take(i as int));
            assert(all.take(i + 1).last() == (found@[i as int].0@, found@[i as int].1.deep_view()));
        }
        let info = found[i].1.copy();
        table::insert(known, found[i].0.as_str(), info);
        table::add_listed(routes, found[i].0.as_str(), provider);
        i = i + 1;
    }
    proof {
        assert(all.take(all.len() as int) =~= all);
    }
}

/// Every model that a provider is found to offer is routed to it, and nothing that was routed
/// is lost.
pub proof fn law_offered_models_are_routed(
    routes: Seq<(Seq<char>, Seq<Seq<char>>)>,
    found: Seq<(Seq<char>, ModelFacts)>,
    provider: Seq<char>,
    i: int,
    other: Seq<char>,
    id: Seq<char>,
)
    ensures
        0 <= i < found.len() ==> is_listed_under(
            routes_after(routes, found, provider),
            found[i].0,
            provider,
        ),
        is_listed_under(routes, other, id) ==> is_listed_under(
            routes_after(routes, found, provider),
            other,
            id,
        ),
    decreases found.len(),
{
    if found.len() > 0 {
        let front = found.drop_last();
        let before = routes_after(routes, front, provider);
        law_offered_models_are_routed(routes, front, provider, i, other, id);
        table::law_list_keeps_what_it_is_given(before, found.last().0, provider, other, id);
        if 0 <= i < front.len() {
            assert(front[i] == found[i]);
            table::law_list_keeps_what_it_is_given(before, found.last().0, provider, found[i].0, provider);
        }
    }
}

} // verus!
