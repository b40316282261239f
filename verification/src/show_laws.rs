//! What the pages show of models and providers.

use vstd::prelude::*;

use crate::landing_page::family;
use crate::landing_page::letters_of;
use crate::landing_page::picking;
use crate::landing_page::private_rest;
use crate::landing_page::spelling;
use crate::landing_page::Picked;
use crate::models_page;
use crate::models_page::capitalized;
use crate::models_page::catalog_entry;
use crate::models_page::details_of;
use crate::models_page::offering;
use crate::models_page::readable_name;
use crate::models_page::spaced;
use crate::models_page::CatalogEntry;
use crate::models_page::Shown;
use crate::provider_laws::is_first_named;
use crate::provider_laws::lemma_provider_named;
use crate::providers_page;
use crate::providers_page::card_of;
use crate::providers_page::first_letter;
use crate::providers_page::flag_of;
use crate::providers_page::logo_among;
use crate::providers_page::outsiders;
use crate::providers_page::ShownProvider;
use crate::query::passes;
use crate::query::Filter;
use crate::ranking::cheaper;
use crate::ranking::Cost;
use crate::selection::provider_named;
use crate::selection::Offer;
use crate::state::ModelFacts;
use crate::state::ProviderConfig;
use crate::table::entry_of;
use crate::text::has_prefix;
use crate::text::joined;
use crate::text::unicode_alphanumeric;
use crate::text::unicode_lowercase;
use crate::text::unicode_uppercase;
use crate::text::words_from;

verus! {

/// A page shows exactly those models that pass its filter, in the order in which they come.
pub proof fn law_filtered_models_are_shown(
    v: Seq<(Seq<char>, Shown)>,
    f: Filter,
    id: Seq<char>,
    m: Shown,
)
    ensures
        models_page::filtered(seq![], f).len() == 0,
        passes(f, m.name, id, m.zdr, m.zds, m.tee) ==> models_page::filtered(v.push((id, m)), f)
            == models_page::filtered(v, f).push(m),
        !passes(f, m.name, id, m.zdr, m.zds, m.tee) ==> models_page::filtered(v.push((id, m)), f)
            == models_page::filtered(v, f),
{
    assert(v.push((id, m)).drop_last() =~= v);
}

/// A page shows exactly those providers that pass its filter, in the order in which they come.
pub proof fn law_filtered_providers_are_shown(v: Seq<ShownProvider>, f: Filter, p: ShownProvider)
    ensures
        providers_page::filtered(seq![], f).len() == 0,
        passes(f, p.name, p.id, p.zdr, p.zds, p.tee) ==> providers_page::filtered(v.push(p), f)
            == providers_page::filtered(v, f).push(p),
        !passes(f, p.name, p.id, p.zdr, p.zds, p.tee) ==> providers_page::filtered(v.push(p), f)
            == providers_page::filtered(v, f),
{
    assert(v.push(p).drop_last() =~= v);
}

/// A model is said to be offered by each provider that is routed to, exists and knows it.
pub proof fn law_offers_are_found(
    ids: Seq<Seq<char>>,
    id: Seq<char>,
    v: Seq<Offer>,
    models: Seq<Seq<(Seq<char>, ModelFacts)>>,
    name: Seq<char>,
    i: int,
)
    ensures
        is_first_named(v, id, i) && entry_of(models[i], name) is Some ==> offering(
            ids.push(id),
            v,
            models,
            name,
        ) == offering(ids, v, models, name).push(i),
        is_first_named(v, id, i) && entry_of(models[i], name) is None ==> offering(
            ids.push(id),
            v,
            models,
            name,
        ) == offering(ids, v, models, name),
        (forall|j: int| 0 <= j < v.len() ==> (#[trigger] v[j]).id != id) ==> offering(
            ids.push(id),
            v,
            models,
            name,
        ) == offering(ids, v, models, name),
        offering(seq![], v, models, name).len() == 0,
{
    assert(ids.push(id).drop_last() =~= ids);
    lemma_provider_named(v, id, 0);
    if is_first_named(v, id, i) {
        let f = provider_named(v, id, 0)->0;
        assert(v[i].id == id);
        if f < i {
            assert(v[f].id != id);
        } else if i < f {
            assert(v[i].id != id);
        }
    }
}

/// A model of the catalog has the name and the text of its first entry; any other gets a name
/// that can be read, and a text that is the same for all.
pub proof fn law_models_are_described(
    catalog: Seq<CatalogEntry>,
    id: Seq<char>,
    at: int,
    locale: Seq<char>,
)
    requires
        0 <= at <= catalog.len(),
        forall|j: int| 0 <= j < at ==> (#[trigger] catalog[j]).id@ != id,
        at < catalog.len() ==> catalog[at].id@ == id,
    ensures
        at < catalog.len() ==> details_of(catalog, id, locale).0 == catalog[at].name@ && details_of(
            catalog,
            id,
            "la"@,
        ).1 == catalog[at].latin@ && (locale != "la"@ ==> details_of(catalog, id, locale).1
            == catalog[at].english@),
        at == catalog.len() ==> {
            &&& details_of(catalog, id, locale).0 == readable_name(id)
            &&& details_of(catalog, id, "la"@).1 == "Modelum AI anonyme directum: "@
                + readable_name(id) + ". In DeadRouter cum tutela securitatis tuto processum."@
            &&& locale != "la"@ ==> details_of(catalog, id, locale).1
                == "An anonymously routed AI model: "@ + readable_name(id)
                + ". Securely processed through DeadRouter with privacy protection."@
        },
{
    lemma_catalog_entry(catalog, id, 0, at);
}

proof fn lemma_catalog_entry(catalog: Seq<CatalogEntry>, id: Seq<char>, from: int, at: int)
    requires
        0 <= from <= at <= catalog.len(),
        forall|j: int| from <= j < at ==> (#[trigger] catalog[j]).id@ != id,
        at < catalog.len() ==> catalog[at].id@ == id,
    ensures
        at < catalog.len() ==> catalog_entry(catalog, id, from) == Some(catalog[at]),
        at == catalog.len() ==> catalog_entry(catalog, id, from) is None,
    decreases at - from,
{
    if from < at {
        assert(catalog[from].id@ != id);
        lemma_catalog_entry(catalog, id, from + 1, at);
    }
}

/// A name that can be read: hyphens and underscores part the words, and every word begins
/// with a capital letter.
pub proof fn law_names_become_readable(id: Seq<char>, w: Seq<char>, c: char, i: int)
    ensures
        spaced(id).len() == id.len(),
        0 <= i < id.len() ==> spaced(id)[i] == (if id[i] == '-' || id[i] == '_' {
            ' '
        } else {
            id[i]
        }),
        capitalized(seq![c] + w) == unicode_uppercase(seq![c]) + w,
        capitalized(seq![]).len() == 0,
        readable_name(id) == joined(
            Seq::new(words_from(spaced(id), 0).len(), |k: int| capitalized(words_from(spaced(id), 0)[k])),
            " "@,
        ),
{
    assert((seq![c] + w).skip(1) =~= w);
    let words = words_from(spaced(id), 0);
    assert(words.map_values(|x: Seq<char>| capitalized(x)) =~= Seq::new(
        words.len(),
        |k: int| capitalized(words[k]),
    ));
}

/// A provider's card says what is configured of it: its name and texts as they are, its
/// places in capital letters with their flags, and its logo, if there is one.
pub proof fn law_cards_say_what_is_configured(p: ProviderConfig, files: Seq<Seq<char>>)
    ensures
        ({
            let c = card_of(p, files);
            &&& c.id == p.id@
            &&& c.name == p.name@
            &&& c.description == p.description@
            &&& c.privacy_rating == p.privacy_rating
            &&& c.zdr == p.zdr && c.zds == p.zds && c.tee == p.tee
            &&& c.legal_location == unicode_uppercase(p.legal_location@)
            &&& c.data_processing_location == unicode_uppercase(p.data_processing_location@)
            &&& c.legal_flag == flag_of(p.legal_location@)
            &&& c.processing_flag == flag_of(p.data_processing_location@)
            &&& c.logo_url == logo_among(files, p.id@, 0)
            &&& c.supported
        }),
{
}

/// The flags of five countries, and the globe for any other.
pub proof fn law_flags_belong_to_countries(code: Seq<char>)
    ensures
        flag_of(code) == (if unicode_uppercase(code) == "CH"@ {
            "\u{1F1E8}\u{1F1ED}"@
        } else if unicode_uppercase(code) == "US"@ {
            "\u{1F1FA}\u{1F1F8}"@
        } else if unicode_uppercase(code) == "DE"@ {
            "\u{1F1E9}\u{1F1EA}"@
        } else if unicode_uppercase(code) == "FR"@ {
            "\u{1F1EB}\u{1F1F7}"@
        } else if unicode_uppercase(code) == "GB"@ {
            "\u{1F1EC}\u{1F1E7}"@
        } else {
            "\u{1F310}"@
        }),
{
}

/// The letter on a card is the first letter or digit of the name, else a P; and the logo is
/// the first file that is named like the provider.
pub proof fn law_first_letter_and_logo(
    name: Seq<char>,
    at: int,
    files: Seq<Seq<char>>,
    id: Seq<char>,
    file: int,
)
    requires
        0 <= at <= name.len(),
        forall|j: int| 0 <= j < at ==> !unicode_alphanumeric(#[trigger] name[j]),
        at < name.len() ==> unicode_alphanumeric(name[at]),
        0 <= file <= files.len(),
        forall|j: int|
            0 <= j < file ==> !has_prefix(unicode_lowercase(#[trigger] files[j]), id + "."@),
        file < files.len() ==> has_prefix(unicode_lowercase(files[file]), id + "."@),
    ensures
        at < name.len() ==> first_letter(name, 0) == name[at],
        at == name.len() ==> first_letter(name, 0) == 'P',
        file < files.len() ==> logo_among(files, id, 0) == Some("/logos/"@ + files[file]),
        file == files.len() ==> logo_among(files, id, 0) is None,
{
    lemma_first_letter(name, 0, at);
    lemma_logo(files, id, 0, file);
}

proof fn lemma_first_letter(name: Seq<char>, from: int, at: int)
    requires
        0 <= from <= at <= name.len(),
        forall|j: int| from <= j < at ==> !unicode_alphanumeric(#[trigger] name[j]),
        at < name.len() ==> unicode_alphanumeric(name[at]),
    ensures
        at < name.len() ==> first_letter(name, from) == name[at],
        at == name.len() ==> first_letter(name, from) == 'P',
    decreases at - from,
{
    if from < at {
        assert(!unicode_alphanumeric(name[from]));
        lemma_first_letter(name, from + 1, at);
    }
}

proof fn lemma_logo(files: Seq<Seq<char>>, id: Seq<char>, from: int, at: int)
    requires
        0 <= from <= at <= files.len(),
        forall|j: int|
            from <= j < at ==> !has_prefix(unicode_lowercase(#[trigger] files[j]), id + "."@),
        at < files.len() ==> has_prefix(unicode_lowercase(files[at]), id + "."@),
    ensures
        at < files.len() ==> logo_among(files, id, from) == Some("/logos/"@ + files[at]),
        at == files.len() ==> logo_among(files, id, from) is None,
    decreases at - from,
{
    if from < at {
        assert(!has_prefix(unicode_lowercase(files[from]), id + "."@));
        lemma_logo(files, id, from + 1, at);
    }
}

/// Of two offers the one with the lower price for reading is cheaper, and where these are the
/// same the one with the lower price for writing; one without a price is neither.
pub proof fn law_reading_is_priced_first(a: u64, b: u64, c: u64, d: u64, other: Cost)
    ensures
        ({
            let x = Cost { prompt: Some(a), completion: Some(b) };
            let y = Cost { prompt: Some(c), completion: Some(d) };
            &&& cheaper(x, y) <==> a < c || (a == c && b < d)
            &&& other.prompt is None ==> !cheaper(x, other) && !cheaper(other, x)
        }),
{
}

/// The models of a family are those whose ids begin with its name; and the private rest are
/// those that keep nothing, share nothing, run in an enclave and were not picked before under
/// any spelling.
pub proof fn law_families_and_the_rest(
    ids: Seq<Seq<char>>,
    prefix: Seq<char>,
    v: Seq<(Seq<char>, Shown)>,
    seen: Seq<Seq<char>>,
    n: int,
)
    requires
        0 < n,
    ensures
        family(ids, prefix, n) == (if has_prefix(ids[n - 1], prefix) {
            family(ids, prefix, n - 1).push(n - 1)
        } else {
            family(ids, prefix, n - 1)
        }),
        family(ids, prefix, 0).len() == 0,
        private_rest(v, seen, n) == (if v[n - 1].1.zdr && v[n - 1].1.zds && v[n - 1].1.tee
            && !seen.contains(spelling(v[n - 1].0)) {
            private_rest(v, seen, n - 1).push(n - 1)
        } else {
            private_rest(v, seen, n - 1)
        }),
        private_rest(v, seen, 0).len() == 0,
{
}

/// Spellings differ only in letters and digits, in lower case; whatever stands between does
/// not count.
pub proof fn law_spelling_ignores_the_rest(s: Seq<char>, c: char)
    ensures
        unicode_alphanumeric(c) ==> letters_of(s.push(c)) == letters_of(s).push(c),
        !unicode_alphanumeric(c) ==> letters_of(s.push(c)) == letters_of(s) && spelling(s.push(c))
            == spelling(s),
        spelling(s) == unicode_lowercase(letters_of(s)),
        letters_of(seq![]).len() == 0,
{
    assert(s.push(c).drop_last() =~= s);
}

/// Picking goes on until enough are picked: it takes the next one whose spelling is new, and
/// passes over the others.
pub proof fn law_new_spellings_are_picked(
    from: Seq<int>,
    k: int,
    count: int,
    ids: Seq<Seq<char>>,
    p: Picked,
)
    requires
        0 <= k < from.len(),
    ensures
        count <= 0 ==> picking(from, k, count, ids, p) == p,
        count > 0 && p.seen.contains(spelling(ids[from[k]])) ==> picking(from, k, count, ids, p)
            == picking(from, k + 1, count, ids, p),
        count > 0 && !p.seen.contains(spelling(ids[from[k]])) ==> picking(from, k, count, ids, p)
            == picking(
            from,
            k + 1,
            count - 1,
            ids,
            Picked {
                places: p.places.push(from[k]),
                seen: p.seen.push(spelling(ids[from[k]])),
            },
        ),
        picking(from, from.len() as int, count, ids, p) == p,
{
}

/// What is promised of a model is what one of those who offer it promises.
pub proof fn law_promises_are_of_some_offer(c: Seq<int>, v: Seq<Offer>, i: int)
    ensures
        0 <= i < c.len() && v[c[i]].zdr ==> models_page::any_zdr(c, v),
        0 <= i < c.len() && v[c[i]].zds ==> models_page::any_zds(c, v),
        0 <= i < c.len() && v[c[i]].tee ==> models_page::any_tee(c, v),
        (forall|k: int| 0 <= k < c.len() ==> !(#[trigger] v[c[k]]).zdr) ==> !models_page::any_zdr(
            c,
            v,
        ),
        (forall|k: int| 0 <= k < c.len() ==> !(#[trigger] v[c[k]]).zds) ==> !models_page::any_zds(
            c,
            v,
        ),
        (forall|k: int| 0 <= k < c.len() ==> !(#[trigger] v[c[k]]).tee) ==> !models_page::any_tee(
            c,
            v,
        ),
{
}

/// The providers that are shown for comparison are not supported, and promise nothing.
pub proof fn law_outsiders_promise_nothing(text: Seq<char>, i: int)
    requires
        0 <= i < outsiders(text).len(),
    ensures
        outsiders(text).len() == 2,
        outsiders(text)[0].id == "openai"@ && outsiders(text)[1].id == "anthropic"@,
        outsiders(text)[1].description == text,
        !outsiders(text)[i].supported,
        !outsiders(text)[i].zdr && !outsiders(text)[i].zds && !outsiders(text)[i].tee,
        outsiders(text)[i].privacy_rating == 2,
{
}

} // verus!
