//! The page of providers: those that requests go to, and those that they do not.

use vstd::prelude::*;

use crate::i18n::Locale;
use crate::order::is_stable_order;
use crate::query::passes;
use crate::query::passes_filter;
use crate::query::Filter;
use crate::query::PageQuery;
use crate::ranking::by_text;
use crate::ranking::order_by_text;
use crate::state::ProviderConfig;
use crate::text;
use crate::text::chars_of;
use crate::text::has_prefix;
use crate::text::string_of;
use crate::text::text_eq;
use crate::text::unicode_alphanumeric;
use crate::text::unicode_lowercase;
use crate::text::unicode_uppercase;

verus! {

/// What is shown of a provider.
pub struct RenderProviderItem {
    pub id: String,
    pub name: String,
    pub description: String,
    pub logo_letter: String,
    pub logo_url: Option<String>,
    pub privacy_rating: u8,
    pub zdr: bool,
    pub zds: bool,
    pub tee: bool,
    pub legal_location: String,
    pub legal_flag: String,
    pub data_processing_location: String,
    pub processing_flag: String,
    pub supported: bool,
}

/// What the page of providers shows.
pub struct ProvidersTemplate {
    pub locale: Locale,
    pub onion_site: String,
    pub supported_providers: Vec<RenderProviderItem>,
    pub unsupported_providers: Vec<RenderProviderItem>,
    pub search_query: String,
    pub filter_zdr: bool,
    pub filter_zds: bool,
    pub filter_tee: bool,
}

/// What is shown of a provider.
#[verifier::ext_equal]
pub struct ShownProvider {
    pub id: Seq<char>,
    pub name: Seq<char>,
    pub description: Seq<char>,
    pub logo_letter: Seq<char>,
    pub logo_url: Option<Seq<char>>,
    pub privacy_rating: u8,
    pub zdr: bool,
    pub zds: bool,
    pub tee: bool,
    pub legal_location: Seq<char>,
    pub legal_flag: Seq<char>,
    pub data_processing_location: Seq<char>,
    pub processing_flag: Seq<char>,
    pub supported: bool,
}

/// A text, if there is one.
pub open spec fn text_in(s: Option<String>) -> Option<Seq<char>> {
    match s {
        Some(t) => Some(t@),
        None => None,
    }
}

impl DeepView for RenderProviderItem {
    type V = ShownProvider;

    open spec fn deep_view(&self) -> ShownProvider {
        ShownProvider {
            id: self.id@,
            name: self.name@,
            description: self.description@,
            logo_letter: self.logo_letter@,
            logo_url: text_in(self.logo_url),
            privacy_rating: self.privacy_rating,
            zdr: self.zdr,
            zds: self.zds,
            tee: self.tee,
            legal_location: self.legal_location@,
            legal_flag: self.legal_flag@,
            data_processing_location: self.data_processing_location@,
            processing_flag: self.processing_flag@,
            supported: self.supported,
        }
    }
}

impl RenderProviderItem {
    /// A copy that shows the same.
    pub fn copy(&self) -> (r: Self)
        ensures
            r.deep_view() == self.deep_view(),
    {
        let logo_url = match &self.logo_url {
            Some(u) => Some(u.clone()),
            None => None,
        };
        RenderProviderItem {
            id: self.id.clone(),
            name: self.name.clone(),
            description: self.description.clone(),
            logo_letter: self.logo_letter.clone(),
            logo_url,
            privacy_rating: self.privacy_rating,
            zdr: self.zdr,
            zds: self.zds,
            tee: self.tee,
            legal_location: self.legal_location.clone(),
            legal_flag: self.legal_flag.clone(),
            data_processing_location: self.data_processing_location.clone(),
            processing_flag: self.processing_flag.clone(),
            supported: self.supported,
        }
    }
}

/// What is shown of some providers.
pub open spec fn all_shown(v: Seq<RenderProviderItem>) -> Seq<ShownProvider> {
    v.map_values(|i: RenderProviderItem| i.deep_view())
}

// ---------------------------------------------------------------------------
// Parts of a card
// ---------------------------------------------------------------------------

/// The flag of a country, by its code in either case; a globe for one that has none here.
pub open spec fn flag_of(code: Seq<char>) -> Seq<char> {
    let c = unicode_uppercase(code);
    if c == "CH"@ {
        "\u{1F1E8}\u{1F1ED}"@
    } else if c == "US"@ {
        "\u{1F1FA}\u{1F1F8}"@
    } else if c == "DE"@ {
        "\u{1F1E9}\u{1F1EA}"@
    } else if c == "FR"@ {
        "\u{1F1EB}\u{1F1F7}"@
    } else if c == "GB"@ {
        "\u{1F1EC}\u{1F1E7}"@
    } else {
        "\u{1F310}"@
    }
}

/// The flag of a country, by its code.
pub fn get_flag(country_code: &str) -> (r: String)
    ensures
        r@ == flag_of(country_code@),
{
    let c = country_code.to_uppercase();
    if text_eq(c.as_str(), "CH") {
        "\u{1F1E8}\u{1F1ED}".to_string()
    } else if text_eq(c.as_str(), "US") {
        "\u{1F1FA}\u{1F1F8}".to_string()
    } else if text_eq(c.as_str(), "DE") {
        "\u{1F1E9}\u{1F1EA}".to_string()
    } else if text_eq(c.as_str(), "FR") {
        "\u{1F1EB}\u{1F1F7}".to_string()
    } else if text_eq(c.as_str(), "GB") {
        "\u{1F1EC}\u{1F1E7}".to_string()
    } else {
        "\u{1F310}".to_string()
    }
}

/// The first letter or digit, at or after `from`, of a name; a P where there is none.
pub open spec fn first_letter(name: Seq<char>, from: int) -> char
    decreases name.len() - from,
{
    if from < 0 || from >= name.len() {
        'P'
    } else if unicode_alphanumeric(name[from]) {
        name[from]
    } else {
        first_letter(name, from + 1)
    }
}

/// The letter that stands for a provider without a logo.
pub fn logo_letter(name: &str) -> (r: String)
    ensures
        r@ == unicode_uppercase(seq![first_letter(name@, 0)]),
{
    let v = chars_of(name);
    let mut i: usize = 0;
    while i < v.len()
        invariant
            v@ == name@,
            i <= v@.len(),
            first_letter(name@, 0) == first_letter(name@, i as int),
        decreases v@.len() - i,
    {
        if v[i].is_alphanumeric() {
            let letter = string_of(v.as_slice(), i, i + 1);
            proof {
                assert(letter@ =~= seq![first_letter(name@, 0)]);
            }
            return letter.as_str().to_uppercase();
        }
        i = i + 1;
    }
    proof {
        reveal_strlit("P");
        assert("P"@ =~= seq![first_letter(name@, 0)]);
    }
    "P".to_uppercase()
}

/// The logo of a provider among the names of files: the first, at or after `from`, that starts
/// with the provider's name and a dot, in whatever case.
pub open spec fn logo_among(files: Seq<Seq<char>>, id: Seq<char>, from: int) -> Option<Seq<char>>
    decreases files.len() - from,
{
    if from < 0 || from >= files.len() {
        None
    } else if has_prefix(unicode_lowercase(files[from]), id + "."@) {
        Some("/logos/"@ + files[from])
    } else {
        logo_among(files, id, from + 1)
    }
}

/// Finds the logo of a provider among the names of files.
pub fn find_logo(files: &Vec<String>, id: &str) -> (r: Option<String>)
    ensures
        text_in(r) == logo_among(text::views(files@), id@, 0),
{
    let ghost all = text::views(files@);
    let prefix = text::cat2(id, ".");
    let mut i: usize = 0;
    while i < files.len()
        invariant
            i <= files@.len(),
            all == text::views(files@),
            prefix@ == id@ + "."@,
            logo_among(all, id@, 0) == logo_among(all, id@, i as int),
        decreases files@.len() - i,
    {
        proof {
            assert(all[i as int] == files@[i as int]@);
        }
        let lower = files[i].as_str().to_lowercase();
        if text::starts_with(lower.as_str(), prefix.as_str()) {
            return Some(text::cat2("/logos/", files[i].as_str()));
        }
        i = i + 1;
    }
    None
}

/// What is shown of a provider that requests go to.
pub open spec fn card_of(p: ProviderConfig, files: Seq<Seq<char>>) -> ShownProvider {
    ShownProvider {
        id: p.id@,
        name: p.name@,
        description: p.description@,
        logo_letter: unicode_uppercase(seq![first_letter(p.name@, 0)]),
        logo_url: logo_among(files, p.id@, 0),
        privacy_rating: p.privacy_rating,
        zdr: p.zdr,
        zds: p.zds,
        tee: p.tee,
        legal_location: unicode_uppercase(p.legal_location@),
        legal_flag: flag_of(p.legal_location@),
        data_processing_location: unicode_uppercase(p.data_processing_location@),
        processing_flag: flag_of(p.data_processing_location@),
        supported: true,
    }
}

/// Puts together what is shown of a provider that requests go to.
pub fn provider_card(p: &ProviderConfig, files: &Vec<String>) -> (r: RenderProviderItem)
    ensures
        r.deep_view() == card_of(*p, text::views(files@)),
{
    RenderProviderItem {
        id: p.id.clone(),
        name: p.name.clone(),
        description: p.description.clone(),
        logo_letter: logo_letter(p.name.as_str()),
        logo_url: find_logo(files, p.id.as_str()),
        privacy_rating: p.privacy_rating,
        zdr: p.zdr,
        zds: p.zds,
        tee: p.tee,
        legal_location: p.legal_location.as_str().to_uppercase(),
        legal_flag: get_flag(p.legal_location.as_str()),
        data_processing_location: p.data_processing_location.as_str().to_uppercase(),
        processing_flag: get_flag(p.data_processing_location.as_str()),
        supported: true,
    }
}

/// What is shown of a provider that requests do not go to: it promises nothing.
pub open spec fn outsider(
    id: Seq<char>,
    name: Seq<char>,
    description: Seq<char>,
    letter: Seq<char>,
    logo: Option<Seq<char>>,
) -> ShownProvider {
    ShownProvider {
        id,
        name,
        description,
        logo_letter: letter,
        logo_url: logo,
        privacy_rating: 2,
        zdr: false,
        zds: false,
        tee: false,
        legal_location: "US"@,
        legal_flag: flag_of("US"@),
        data_processing_location: "US"@,
        processing_flag: flag_of("US"@),
        supported: false,
    }
}

/// The providers that requests do not go to. `anthropic` is how one of them is described.
pub open spec fn outsiders(anthropic: Seq<char>) -> Seq<ShownProvider> {
    seq![
        outsider(
            "openai"@,
            "OpenAI"@,
            "The industry standard for general LLMs. Operates under standard corporate clouds with data retention, telemetry, and training enabled by default."@,
            "O"@,
            Some("/logos/openai.svg"@),
        ),
        outsider(
            "anthropic"@,
            "Anthropic"@,
            anthropic,
            "A"@,
            None,
        ),
    ]
}

fn outsider_card(
    id: &str,
    name: &str,
    description: &str,
    letter: &str,
    logo: Option<String>,
) -> (r: RenderProviderItem)
    ensures
        r.deep_view() == outsider(id@, name@, description@, letter@, text_in(logo)),
{
    RenderProviderItem {
        id: id.to_string(),
        name: name.to_string(),
        description: description.to_string(),
        logo_letter: letter.to_string(),
        logo_url: logo,
        privacy_rating: 2,
        zdr: false,
        zds: false,
        tee: false,
        legal_location: "US".to_string(),
        legal_flag: get_flag("US"),
        data_processing_location: "US".to_string(),
        processing_flag: get_flag("US"),
        supported: false,
    }
}

/// The providers that requests do not go to. How Anthropic is described is the page's own
/// affair.
pub fn unsupported_cards(anthropic_description: &str) -> (r: Vec<RenderProviderItem>)
    ensures
        all_shown(r@) == outsiders(anthropic_description@),
{
    let mut out: Vec<RenderProviderItem> = Vec::new();
    out.push(
        outsider_card(
            "openai",
            "OpenAI",
            "The industry standard for general LLMs. Operates under standard corporate clouds with data retention, telemetry, and training enabled by default.",
            "O",
            Some("/logos/openai.svg".to_string()),
        ),
    );
    out.push(
        outsider_card(
            "anthropic",
            "Anthropic",
            anthropic_description,
            "A",
            None,
        ),
    );
    proof {
        assert(all_shown(out@) =~= outsiders(anthropic_description@));
    }
    out
}

// ---------------------------------------------------------------------------
// Which providers are shown
// ---------------------------------------------------------------------------

/// Those of some providers that pass a filter.
pub open spec fn filtered(v: Seq<ShownProvider>, f: Filter) -> Seq<ShownProvider>
    decreases v.len(),
{
    if v.len() == 0 {
        seq![]
    } else {
        let before = filtered(v.drop_last(), f);
        let p = v.last();
        if passes(f, p.name, p.id, p.zdr, p.zds, p.tee) {
            before.push(p)
        } else {
            before
        }
    }
}

/// The names of some providers.
pub open spec fn names_of(v: Seq<ShownProvider>) -> Seq<Seq<char>> {
    v.map_values(|p: ShownProvider| p.name)
}

/// Whether some providers are others in the order of their names.
pub open spec fn sorted_by_name(out: Seq<ShownProvider>, v: Seq<ShownProvider>) -> bool {
    exists|p: Seq<usize>| #[trigger]
        is_stable_order(p, v.len() as int, by_text(names_of(v))) && out.len() == v.len()
            && forall|i: int| 0 <= i < v.len() ==> #[trigger] out[i] == v[p[i] as int]
}

/// Chooses the providers that a page shows, in the order of their names.
pub fn providers_shown(cards: &Vec<RenderProviderItem>, query: &PageQuery) -> (r: Vec<
    RenderProviderItem,
>)
    ensures
        sorted_by_name(all_shown(r@), filtered(all_shown(cards@), query@)),
{
    let ghost all = all_shown(cards@);
    let mut kept: Vec<RenderProviderItem> = Vec::new();
    let mut names: Vec<String> = Vec::new();
    let mut i: usize = 0;
    proof {
        assert(all.take(0) =~= seq![]);
        assert(all_shown(kept@) =~= seq![]);
        assert(text::views(names@) =~= names_of(all_shown(kept@)));
    }
    while i < cards.len()
        invariant
            i <= cards@.len(),
            all == all_shown(cards@),
            all_shown(kept@) == filtered(all.take(i as int), query@),
            text::views(names@) == names_of(all_shown(kept@)),
        decreases cards@.len() - i,
    {
        let ghost before = all_shown(kept@);
        let ghost named = text::views(names@);
        let p = &cards[i];
        proof {
            assert(all.take(i + 1).drop_last() =~= all.take(i as int));
            assert(all.take(i + 1).last() == p.deep_view());
        }
        if passes_filter(query, p.name.as_str(), p.id.as_str(), p.zdr, p.zds, p.tee) {
            kept.push(p.copy());
            names.push(p.name.clone());
            proof {
                assert(all_shown(kept@) =~= before.push(p.deep_view()));
                assert(text::views(names@) =~= named.push(p.name@));
                assert(names_of(all_shown(kept@)) =~= names_of(before).push(p.name@));
            }
        }
        i = i + 1;
    }
    proof {
        assert(all.take(all.len() as int) =~= all);
        assert(text::views(names@).len() == names@.len());
    }
    let p = order_by_text(&names);
    let ghost v = all_shown(kept@);
    let mut out: Vec<RenderProviderItem> = Vec::new();
    let mut k: usize = 0;
    while k < kept.len()
        invariant
            k <= kept@.len(),
            v == all_shown(kept@),
            is_stable_order(p@, kept@.len() as int, by_text(names_of(v))),
            out@.len() == k,
            forall|j: int| 0 <= j < k ==> (#[trigger] out@[j]).deep_view() == v[p@[j] as int],
        decreases kept@.len() - k,
    {
        proof {
            assert(p@[k as int] < kept@.len());
        }
        out.push(kept[p[k]].copy());
        k = k + 1;
    }
    proof {
        let o = all_shown(out@);
        assert forall|j: int| 0 <= j < v.len() implies #[trigger] o[j] == v[p@[j] as int] by {
            assert(o[j] == out@[j].deep_view());
        }
        assert(is_stable_order(p@, v.len() as int, by_text(names_of(v))));
    }
    out
}

} // verus!
