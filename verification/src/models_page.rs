//! The page of models: what is shown of each, which are shown, and in which order.

use vstd::prelude::*;

use crate::i18n::Locale;
use crate::models::law_names_are_ordered;
use crate::models::name_order;
use crate::order::comes_before;
use crate::order::is_stable_order;
use crate::query::passes;
use crate::query::passes_filter;
use crate::query::Filter;
use crate::query::PageQuery;
use crate::ranking::by_name;
use crate::ranking::order_by_name;
use crate::selection::find_provider;
use crate::selection::offers_of;
use crate::selection::places;
use crate::selection::provider_named;
use crate::selection::within;
use crate::selection::Offer;
use crate::state::DynamicModelInfo;
use crate::state::ModelFacts;
use crate::state::ProviderConfig;
use crate::table;
use crate::table::entries;
use crate::table::entry_of;
use crate::text;
use crate::text::chars_of;
use crate::text::joined;
use crate::text::string_of;
use crate::text::string_of_all;
use crate::text::text_eq;
use crate::text::unicode_uppercase;
use crate::text::words_from;

verus! {

/// What is shown of a model.
pub struct RenderModelItem {
    pub name: String,
    pub description: String,
    pub price_input: String,
    pub price_output: String,
    pub zdr: bool,
    pub zds: bool,
    pub tee: bool,
}

/// What the page of models shows.
pub struct ModelsTemplate {
    pub locale: Locale,
    pub onion_site: String,
    pub models: Vec<RenderModelItem>,
    pub search_query: String,
    pub filter_zdr: bool,
    pub filter_zds: bool,
    pub filter_tee: bool,
}

/// What is shown of a model.
#[verifier::ext_equal]
pub struct Shown {
    pub name: Seq<char>,
    pub description: Seq<char>,
    pub price_input: Seq<char>,
    pub price_output: Seq<char>,
    pub zdr: bool,
    pub zds: bool,
    pub tee: bool,
}

impl DeepView for RenderModelItem {
    type V = Shown;

    open spec fn deep_view(&self) -> Shown {
        Shown {
            name: self.name@,
            description: self.description@,
            price_input: self.price_input@,
            price_output: self.price_output@,
            zdr: self.zdr,
            zds: self.zds,
            tee: self.tee,
        }
    }
}

impl RenderModelItem {
    /// A copy that shows the same.
    pub fn copy(&self) -> (r: Self)
        ensures
            r.deep_view() == self.deep_view(),
    {
        RenderModelItem {
            name: self.name.clone(),
            description: self.description.clone(),
            price_input: self.price_input.clone(),
            price_output: self.price_output.clone(),
            zdr: self.zdr,
            zds: self.zds,
            tee: self.tee,
        }
    }
}

/// What is shown of some models.
pub open spec fn all_shown(v: Seq<RenderModelItem>) -> Seq<Shown> {
    v.map_values(|i: RenderModelItem| i.deep_view())
}

// ---------------------------------------------------------------------------
// Names and descriptions
// ---------------------------------------------------------------------------

/// What the catalog says of a model: its name, and its description in English and in Latin.
pub struct CatalogEntry {
    pub id: &'static str,
    pub name: &'static str,
    pub english: &'static str,
    pub latin: &'static str,
}

/// The first entry, at or after `from`, of a model in a catalog.
pub open spec fn catalog_entry(catalog: Seq<CatalogEntry>, id: Seq<char>, from: int) -> Option<
    CatalogEntry,
>
    decreases catalog.len() - from,
{
    if from < 0 || from >= catalog.len() {
        None
    } else if catalog[from].id@ == id {
        Some(catalog[from])
    } else {
        catalog_entry(catalog, id, from + 1)
    }
}

/// An identifier with spaces for its hyphens and underscores.
pub open spec fn spaced(id: Seq<char>) -> Seq<char> {
    id.map_values(
        |c: char|
            if c == '-' || c == '_' {
                ' '
            } else {
                c
            },
    )
}

/// A word with its first letter in upper case.
pub open spec fn capitalized(w: Seq<char>) -> Seq<char> {
    if w.len() == 0 {
        w
    } else {
        unicode_uppercase(seq![w[0]]) + w.skip(1)
    }
}

/// A readable name made of an identifier.
pub open spec fn readable_name(id: Seq<char>) -> Seq<char> {
    joined(words_from(spaced(id), 0).map_values(|w: Seq<char>| capitalized(w)), " "@)
}

/// The name and the description of a model: the catalog's, or such as are made of the
/// identifier.
pub open spec fn details_of(catalog: Seq<CatalogEntry>, id: Seq<char>, locale: Seq<char>) -> (
    Seq<char>,
    Seq<char>,
) {
    match catalog_entry(catalog, id, 0) {
        Some(e) => (
            e.name@,
            if locale == "la"@ {
                e.latin@
            } else {
                e.english@
            },
        ),
        None => {
            let name = readable_name(id);
            (
                name,
                if locale == "la"@ {
                    "Modelum AI anonyme directum: "@ + name
                        + ". In DeadRouter cum tutela securitatis tuto processum."@
                } else {
                    "An anonymously routed AI model: "@ + name
                        + ". Securely processed through DeadRouter with privacy protection."@
                },
            )
        },
    }
}

fn find_entry<'a>(catalog: &'a Vec<CatalogEntry>, id: &str) -> (r: Option<&'a CatalogEntry>)
    ensures
        match r {
            Some(e) => catalog_entry(catalog@, id@, 0) == Some(*e),
            None => catalog_entry(catalog@, id@, 0) is None,
        },
{
    let mut i: usize = 0;
    while i < catalog.len()
        invariant
            i <= catalog@.len(),
            catalog_entry(catalog@, id@, 0) == catalog_entry(catalog@, id@, i as int),
        decreases catalog@.len() - i,
    {
        if text_eq(catalog[i].id, id) {
            return Some(&catalog[i]);
        }
        i = i + 1;
    }
    None
}

fn space_out(id: &str) -> (r: String)
    ensures
        r@ == spaced(id@),
{
    let v = chars_of(id);
    let mut out: Vec<char> = Vec::new();
    let mut i: usize = 0;
    while i < v.len()
        invariant
            v@ == id@,
            i <= v@.len(),
            out@.len() == i,
            forall|j: int| 0 <= j < i ==> #[trigger] out@[j] == spaced(id@)[j],
        decreases v@.len() - i,
    {
        if v[i] == '-' || v[i] == '_' {
            out.push(' ');
        } else {
            out.push(v[i]);
        }
        i = i + 1;
    }
    proof {
        assert(out@ =~= spaced(id@));
    }
    string_of_all(out.as_slice())
}

fn capitalize(w: &str) -> (r: String)
    ensures
        r@ == capitalized(w@),
{
    let v = chars_of(w);
    if v.len() == 0 {
        return w.to_string();
    }
    let len: usize = v.len();
    let first = string_of(v.as_slice(), 0, 1);
    let rest = string_of(v.as_slice(), 1, len);
    proof {
        assert(first@ =~= seq![w@[0]]);
        assert(rest@ =~= w@.skip(1));
    }
    let upper = first.as_str().to_uppercase();
    text::cat2(upper.as_str(), rest.as_str())
}

/// Makes a readable name of an identifier.
pub fn make_readable(id: &str) -> (r: String)
    ensures
        r@ == readable_name(id@),
{
    let apart = space_out(id);
    let words = text::words(apart.as_str());
    let ghost all = words_from(spaced(id@), 0);
    let mut out: Vec<String> = Vec::new();
    let mut i: usize = 0;
    proof {
        assert(text::views(words@).len() == words@.len());
    }
    while i < words.len()
        invariant
            text::views(words@) == all,
            i <= words@.len(),
            words@.len() == all.len(),
            out@.len() == i,
            forall|j: int| 0 <= j < i ==> (#[trigger] out@[j])@ == capitalized(all[j]),
        decreases words@.len() - i,
    {
        proof {
            assert(all[i as int] == words@[i as int]@);
        }
        out.push(capitalize(words[i].as_str()));
        i = i + 1;
    }
    proof {
        assert(text::views(out@) =~= all.map_values(|w: Seq<char>| capitalized(w)));
    }
    text::join(&out, " ")
}

/// The name and the description of a model, out of a catalog where it is there.
pub fn get_model_details(catalog: &Vec<CatalogEntry>, model_id: &str, locale: &str) -> (r: (
    String,
    String,
))
    ensures
        (r.0@, r.1@) == details_of(catalog@, model_id@, locale@),
{
    let latin = text_eq(locale, "la");
    if let Some(e) = find_entry(catalog, model_id) {
        let description = if latin {
            e.latin
        } else {
            e.english
        };
        return (e.name.to_string(), description.to_string());
    }
    let name = make_readable(model_id);
    let description = if latin {
        text::cat3(
            "Modelum AI anonyme directum: ",
            name.as_str(),
            ". In DeadRouter cum tutela securitatis tuto processum.",
        )
    } else {
        text::cat3(
            "An anonymously routed AI model: ",
            name.as_str(),
            ". Securely processed through DeadRouter with privacy protection.",
        )
    };
    (name, description)
}

// ---------------------------------------------------------------------------
// Who offers a model
// ---------------------------------------------------------------------------

/// What is known of the models of each provider.
pub open spec fn known_models(v: Seq<Vec<(String, DynamicModelInfo)>>) -> Seq<
    Seq<(Seq<char>, ModelFacts)>,
> {
    v.map_values(|m: Vec<(String, DynamicModelInfo)>| entries(m@))
}

/// Those of some named providers that exist and offer a model, by their places.
pub open spec fn offering(
    ids: Seq<Seq<char>>,
    v: Seq<Offer>,
    models: Seq<Seq<(Seq<char>, ModelFacts)>>,
    name: Seq<char>,
) -> Seq<int>
    decreases ids.len(),
{
    if ids.len() == 0 {
        seq![]
    } else {
        let before = offering(ids.drop_last(), v, models, name);
        match provider_named(v, ids.last(), 0) {
            Some(i) => if entry_of(models[i], name) is Some {
                before.push(i)
            } else {
                before
            },
            None => before,
        }
    }
}

/// Finds those of some named providers that offer a model. `models` are those of the
/// providers, in the same order.
pub fn offering_providers(
    ids: &Vec<String>,
    providers: &Vec<ProviderConfig>,
    models: &Vec<Vec<(String, DynamicModelInfo)>>,
    name: &str,
) -> (r: Vec<usize>)
    requires
        models@.len() == providers@.len(),
    ensures
        places(r@) == offering(
            text::views(ids@),
            offers_of(providers@),
            known_models(models@),
            name@,
        ),
        within(r@, providers@.len() as int),
{
    let ghost all = text::views(ids@);
    let ghost offers = offers_of(providers@);
    let ghost known = known_models(models@);
    let mut out: Vec<usize> = Vec::new();
    let mut i: usize = 0;
    proof {
        assert(all.take(0) =~= seq![]);
        assert(places(out@) =~= seq![]);
    }
    while i < ids.len()
        invariant
            i <= ids@.len(),
            models@.len() == providers@.len(),
            all == text::views(ids@),
            offers == offers_of(providers@),
            known == known_models(models@),
            places(out@) == offering(all.take(i as int), offers, known, name@),
            within(out@, providers@.len() as int),
        decreases ids@.len() - i,
    {
        let ghost before = out@;
        proof {
            assert(all.take(i + 1).drop_last() =~= all.take(i as int));
            assert(all.take(i + 1).last() == ids@[i as int]@);
        }
        if let Some(k) = find_provider(providers, ids[i].as_str()) {
            proof {
                assert(known[k as int] == entries(models@[k as int]@));
            }
            if table::lookup(&models[k], name).is_some() {
                out.push(k);
                proof {
                    assert(places(out@) =~= places(before).push(k as int));
                }
            }
        }
        i = i + 1;
    }
    proof {
        assert(all.take(all.len() as int) =~= all);
    }
    out
}

/// Whether one of some providers keeps no data.
pub open spec fn any_zdr(c: Seq<int>, v: Seq<Offer>) -> bool {
    exists|i: int| 0 <= i < c.len() && (#[trigger] v[c[i]]).zdr
}

/// Whether one of some providers shares no data.
pub open spec fn any_zds(c: Seq<int>, v: Seq<Offer>) -> bool {
    exists|i: int| 0 <= i < c.len() && (#[trigger] v[c[i]]).zds
}

/// Whether one of some providers computes in an enclave.
pub open spec fn any_tee(c: Seq<int>, v: Seq<Offer>) -> bool {
    exists|i: int| 0 <= i < c.len() && (#[trigger] v[c[i]]).tee
}

/// Puts together what is shown of a model that some providers offer. The prices are those of
/// the cheapest, as they are shown.
pub fn model_item(
    catalog: &Vec<CatalogEntry>,
    model: &str,
    locale: &str,
    chosen: &Vec<usize>,
    providers: &Vec<ProviderConfig>,
    price_input: &str,
    price_output: &str,
) -> (r: RenderModelItem)
    requires
        within(chosen@, providers@.len() as int),
    ensures
        r.deep_view() == (Shown {
            name: details_of(catalog@, model@, locale@).0,
            description: details_of(catalog@, model@, locale@).1,
            price_input: price_input@,
            price_output: price_output@,
            zdr: any_zdr(places(chosen@), offers_of(providers@)),
            zds: any_zds(places(chosen@), offers_of(providers@)),
            tee: any_tee(places(chosen@), offers_of(providers@)),
        }),
{
    let ghost c = places(chosen@);
    let ghost v = offers_of(providers@);
    let (name, description) = get_model_details(catalog, model, locale);
    let mut zdr = false;
    let mut zds = false;
    let mut tee = false;
    let mut i: usize = 0;
    while i < chosen.len()
        invariant
            i <= chosen@.len(),
            within(chosen@, providers@.len() as int),
            c == places(chosen@),
            v == offers_of(providers@),
            zdr == exists|j: int| 0 <= j < i && (#[trigger] v[c[j]]).zdr,
            zds == exists|j: int| 0 <= j < i && (#[trigger] v[c[j]]).zds,
            tee == exists|j: int| 0 <= j < i && (#[trigger] v[c[j]]).tee,
        decreases chosen@.len() - i,
    {
        let k: usize = chosen[i];
        proof {
            assert(chosen@[i as int] < providers@.len());
            assert(c[i as int] == k as int);
            assert(v[c[i as int]] == crate::selection::offer_of(providers@[k as int]));
        }
        if providers[k].zdr {
            zdr = true;
        }
        if providers[k].zds {
            zds = true;
        }
        if providers[k].tee {
            tee = true;
        }
        i = i + 1;
    }
    RenderModelItem {
        name,
        description,
        price_input: price_input.to_string(),
        price_output: price_output.to_string(),
        zdr,
        zds,
        tee,
    }
}

// ---------------------------------------------------------------------------
// Which models are shown
// ---------------------------------------------------------------------------

/// Those of some models that pass a filter.
pub open spec fn filtered(v: Seq<(Seq<char>, Shown)>, f: Filter) -> Seq<Shown>
    decreases v.len(),
{
    if v.len() == 0 {
        seq![]
    } else {
        let before = filtered(v.drop_last(), f);
        let (id, m) = v.last();
        if passes(f, m.name, id, m.zdr, m.zds, m.tee) {
            before.push(m)
        } else {
            before
        }
    }
}

/// The names of some models.
pub open spec fn names_of(v: Seq<Shown>) -> Seq<Seq<char>> {
    v.map_values(|m: Shown| m.name)
}

/// Whether some models are others in the order of their names.
pub open spec fn sorted_by_name(out: Seq<Shown>, v: Seq<Shown>) -> bool {
    exists|p: Seq<usize>| #[trigger]
        is_stable_order(p, v.len() as int, by_name(names_of(v))) && out.len() == v.len()
            && forall|i: int| 0 <= i < v.len() ==> #[trigger] out[i] == v[p[i] as int]
}

/// Chooses the models that a page shows, in the order of their names.
pub fn models_shown(items: &Vec<(String, RenderModelItem)>, query: &PageQuery) -> (r: Vec<
    RenderModelItem,
>)
    ensures
        sorted_by_name(all_shown(r@), filtered(entries(items@), query@)),
{
    let ghost all = entries(items@);
    let mut kept: Vec<RenderModelItem> = Vec::new();
    let mut names: Vec<String> = Vec::new();
    let mut i: usize = 0;
    proof {
        assert(all.take(0) =~= seq![]);
        assert(all_shown(kept@) =~= seq![]);
        assert(text::views(names@) =~= names_of(all_shown(kept@)));
    }
    while i < items.len()
        invariant
            i <= items@.len(),
            all == entries(items@),
            all_shown(kept@) == filtered(all.take(i as int), query@),
            text::views(names@) == names_of(all_shown(kept@)),
        decreases items@.len() - i,
    {
        let ghost before = all_shown(kept@);
        let ghost named = text::views(names@);
        proof {
            assert(all.take(i + 1).drop_last() =~= all.take(i as int));
            assert(all.take(i + 1).last() == (items@[i as int].0@, items@[i as int].1.deep_view()));
        }
        let m = &items[i].1;
        if passes_filter(query, m.name.as_str(), items[i].0.as_str(), m.zdr, m.zds, m.tee) {
            kept.push(m.copy());
            names.push(m.name.clone());
            proof {
                assert(all_shown(kept@) =~= before.push(m.deep_view()));
                assert(text::views(names@) =~= named.push(m.name@));
                assert(names_of(all_shown(kept@)) =~= names_of(before).push(m.name@));
            }
        }
        i = i + 1;
    }
    proof {
        assert(all.take(all.len() as int) =~= all);
        assert(text::views(names@).len() == names@.len());
    }
    let p = order_by_name(&names);
    let ghost v = all_shown(kept@);
    let mut out: Vec<RenderModelItem> = Vec::new();
    let mut k: usize = 0;
    while k < kept.len()
        invariant
            k <= kept@.len(),
            v == all_shown(kept@),
            is_stable_order(p@, kept@.len() as int, by_name(names_of(v))),
            out@.len() == k,
            forall|j: int| 0 <= j < k ==> (#[trigger] out@[j]).deep_view() == v[p@[j] as int],
        decreases kept@.len() - k,
    {
        proof {
            assert(p@[k as int] < kept@.len());
        }
        out.push(kept[p[k]].copy());
        k = k + 1;
    }
    proof {
        let o = all_shown(out@);
        assert forall|j: int| 0 <= j < v.len() implies #[trigger] o[j] == v[p@[j] as int] by {
            assert(o[j] == out@[j].deep_view());
        }
        assert(is_stable_order(p@, v.len() as int, by_name(names_of(v))));
    }
    out
}

/// The models of a page stand in the order of their names.
pub proof fn law_page_is_in_order(out: Seq<Shown>, v: Seq<Shown>, i: int, j: int)
    requires
        sorted_by_name(out, v),
        0 <= i < j < out.len(),
    ensures
        name_order(out[i].name, out[j].name) <= 0,
{
    let names = names_of(v);
    let p = choose|p: Seq<usize>| #[trigger]
        is_stable_order(p, v.len() as int, by_name(names)) && out.len() == v.len() && forall|i: int|
            0 <= i < v.len() ==> #[trigger] out[i] == v[p[i] as int];
    assert(p[i] < v.len() && p[j] < v.len());
    assert(comes_before(by_name(names), p[i] as int, p[j] as int));
    assert(out[i] == v[p[i] as int] && out[j] == v[p[j] as int]);
    assert(names[p[i] as int] == out[i].name && names[p[j] as int] == out[j].name);
    law_names_are_ordered(out[i].name, out[j].name, out[j].name);
    assert(!by_name(names)(p[i] as int, p[j] as int));
}

} // verus!
