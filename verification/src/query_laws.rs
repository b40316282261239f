//! What a query asks for, and what a listing tells of a model.

use vstd::prelude::*;

use crate::catalog::without_stop;
use crate::currency;
use crate::currency::Currency;
use crate::json::field_of;
use crate::json::lemma_key_at;
use crate::json::JsonValue;
use crate::models_list::asked_in;
use crate::models_list::asked_of;
use crate::models_list::cost_shown;
use crate::models_list::currency_or;
use crate::models_list::detailed_value;
use crate::models_list::list_value;
use crate::models_list::offered_before;
use crate::models_list::price_shown;
use crate::models_list::pricing_value;
use crate::models_list::short_value;
use crate::models_list::ListQuery;
use crate::models_list::Pricing;
use crate::provider_laws::lemma_stands_in;
use crate::provider_laws::stands_in;
use crate::query;
use crate::query::escape_value;
use crate::query::filter_in;
use crate::query::filter_of;
use crate::query::passes;
use crate::query::unescaped;
use crate::query::url_decoded;
use crate::query::Filter;
use crate::state::ModelFacts;
use crate::text::find_char;
use crate::text::lemma_find_char;
use crate::text::split_on;
use crate::text::trimmed;
use crate::text::unicode_lowercase;
use crate::text::unicode_uppercase;
use crate::text::without_suffixes;
use crate::text_laws::law_copies_at_the_ends_go;

verus! {

// ---------------------------------------------------------------------------
// Escapes
// ---------------------------------------------------------------------------

/// How a byte is written in a query: as it is, as a plus sign for a space, or as two digits
/// of either case behind a percent sign.
pub enum Written {
    Plain(u8),
    Plus,
    Escape(u8, bool),
}

/// The digit for a value below 16.
pub open spec fn digit(v: int, upper: bool) -> u8 {
    if v < 10 {
        (48 + v) as u8
    } else if upper {
        (55 + v) as u8
    } else {
        (87 + v) as u8
    }
}

/// The bytes that a byte is written with.
pub open spec fn laid(w: Written) -> Seq<u8> {
    match w {
        Written::Plain(b) => seq![b],
        Written::Plus => seq![43u8],
        Written::Escape(b, upper) => seq![37u8, digit(b as int / 16, upper), digit(
            b as int % 16,
            upper,
        )],
    }
}

/// The byte that is meant.
pub open spec fn meant(w: Written) -> u8 {
    match w {
        Written::Plain(b) => b,
        Written::Plus => 32,
        Written::Escape(b, _) => b,
    }
}

/// Whether a byte stands for itself where it is written as it is.
pub open spec fn fits(w: Written) -> bool {
    w matches Written::Plain(b) ==> b != 37 && b != 43
}

/// The bytes that some bytes are written with.
pub open spec fn laid_all(ws: Seq<Written>) -> Seq<u8>
    decreases ws.len(),
{
    if ws.len() == 0 {
        seq![]
    } else {
        laid(ws[0]) + laid_all(ws.skip(1))
    }
}

/// Every byte of a query is read as it was meant, however it was written.
pub proof fn law_escapes_are_undone(ws: Seq<Written>)
    requires
        forall|i: int| 0 <= i < ws.len() ==> fits(#[trigger] ws[i]),
    ensures
        unescaped(laid_all(ws), 0) == ws.map_values(|w: Written| meant(w)),
    decreases ws.len(),
{
    let all = laid_all(ws);
    let means = ws.map_values(|w: Written| meant(w));
    if ws.len() > 0 {
        let rest = ws.skip(1);
        let w = ws[0];
        assert(fits(w));
        assert forall|i: int| 0 <= i < rest.len() implies fits(#[trigger] rest[i]) by {
            assert(rest[i] == ws[i + 1]);
        }
        law_escapes_are_undone(rest);
        let n = laid(w).len() as int;
        lemma_unescaped_skip(all, n);
        assert(all.skip(n) =~= laid_all(rest));
        let later = rest.map_values(|w: Written| meant(w));
        assert(means =~= seq![meant(w)] + later);
        match w {
            Written::Escape(b, upper) => {
                lemma_digit(b as int / 16, upper);
                lemma_digit(b as int % 16, upper);
                assert(all[0] == 37);
                assert(all[1] == digit(b as int / 16, upper));
                assert(all[2] == digit(b as int % 16, upper));
                assert(escape_value(all[1], all[2]) == Some(b));
            },
            Written::Plain(b) => {
                assert(all[0] == b);
            },
            Written::Plus => {
                assert(all[0] == 43);
            },
        }
    } else {
        assert(unescaped(all, 0) =~= means);
    }
}

proof fn lemma_digit(v: int, upper: bool)
    requires
        0 <= v < 16,
    ensures
        query::digit_value(digit(v, upper)) == Some(v as u8),
{
}

proof fn lemma_unescaped_skip(s: Seq<u8>, n: int)
    requires
        0 <= n <= s.len(),
    ensures
        unescaped(s, n) == unescaped(s.skip(n), 0),
{
    lemma_unescaped_from(s, n, 0);
}

proof fn lemma_unescaped_from(s: Seq<u8>, n: int, i: int)
    requires
        0 <= n <= s.len(),
        0 <= i,
    ensures
        unescaped(s, n + i) == unescaped(s.skip(n), i),
    decreases s.len() - n - i,
{
    let t = s.skip(n);
    if n + i < s.len() {
        assert(t[i] == s[n + i]);
        if s[n + i] == 37 {
            if n + i + 2 < s.len() {
                assert(t[i + 1] == s[n + i + 1] && t[i + 2] == s[n + i + 2]);
                lemma_unescaped_from(s, n, i + 3);
            } else {
                assert(s.skip(n + i) =~= t.skip(i));
            }
        } else {
            lemma_unescaped_from(s, n, i + 1);
        }
    }
}

// ---------------------------------------------------------------------------
// Pairs
// ---------------------------------------------------------------------------

/// Whether a text lacks an equals sign.
pub open spec fn is_name(s: Seq<char>) -> bool {
    forall|i: int| 0 <= i < s.len() ==> #[trigger] s[i] != '='
}

proof fn lemma_pair(k: Seq<char>, v: Seq<char>)
    requires
        is_name(k),
    ensures
        query::pair_of(k + seq!['='] + v) == Some((k, v)),
        query::pair_of(k) is None,
{
    let s = k + seq!['='] + v;
    lemma_find_char(s, '=', 0);
    lemma_find_char(k, '=', 0);
    assert(s[k.len() as int] == '=');
    let i = find_char(s, '=', 0)->0;
    if i < k.len() {
        assert(s[i] == k[i]);
    }
    assert(i == k.len());
    assert(s.take(i) =~= k);
    assert(s.skip(i + 1) =~= v);
}

proof fn lemma_words()
    ensures
        is_name("q"@),
        is_name("zdr"@),
        is_name("zds"@),
        is_name("tee"@),
        is_name("currency"@),
        is_name("detailed"@),
        "q"@ != "zdr"@,
        "q"@ != "zds"@,
        "q"@ != "tee"@,
        "zdr"@ != "zds"@,
        "zdr"@ != "tee"@,
        "zds"@ != "tee"@,
        "currency"@ != "detailed"@,
{
    reveal_strlit("q");
    reveal_strlit("zdr");
    reveal_strlit("zds");
    reveal_strlit("tee");
    reveal_strlit("currency");
    reveal_strlit("detailed");
    assert("q"@.len() == 1 && "zdr"@.len() == 3);
    assert("zdr"@[2] == 'r' && "zds"@[2] == 's' && "tee"@[0] == 't' && "zdr"@[0] == 'z' && "zds"@[0]
        == 'z');
    assert("currency"@[0] == 'c' && "detailed"@[0] == 'd');
}

/// What each pair of a page's query asks for: "q" what is looked for, and each switch that is
/// set to "1" that it is on; nothing else changes anything.
pub proof fn law_pages_are_asked_for(pairs: Seq<Seq<char>>, k: Seq<char>, v: Seq<char>)
    requires
        is_name(k),
    ensures
        ({
            let f = filter_in(pairs);
            &&& filter_in(pairs.push("q"@ + seq!['='] + v)) == (Filter {
                search: unicode_lowercase(trimmed(url_decoded(v))),
                ..f
            })
            &&& filter_in(pairs.push("zdr"@ + seq!['='] + "1"@)) == (Filter { zdr: true, ..f })
            &&& filter_in(pairs.push("zds"@ + seq!['='] + "1"@)) == (Filter { zds: true, ..f })
            &&& filter_in(pairs.push("tee"@ + seq!['='] + "1"@)) == (Filter { tee: true, ..f })
            &&& k != "q"@ && v != "1"@ ==> filter_in(pairs.push(k + seq!['='] + v)) == f
            &&& k != "q"@ && k != "zdr"@ && k != "zds"@ && k != "tee"@ ==> filter_in(
                pairs.push(k + seq!['='] + v),
            ) == f
            &&& filter_in(pairs.push(k)) == f
        }),
        filter_in(seq![]).search.len() == 0,
        !filter_in(seq![]).zdr && !filter_in(seq![]).zds && !filter_in(seq![]).tee,
        filter_of(None) == filter_in(seq![]),
        filter_of(Some(v)) == filter_in(split_on(v, '&')),
{
    reveal_strlit("");
    lemma_words();
    lemma_pair("q"@, v);
    lemma_pair("zdr"@, "1"@);
    lemma_pair("zds"@, "1"@);
    lemma_pair("tee"@, "1"@);
    lemma_pair(k, v);
    assert(pairs.push("q"@ + seq!['='] + v).drop_last() =~= pairs);
    assert(pairs.push("zdr"@ + seq!['='] + "1"@).drop_last() =~= pairs);
    assert(pairs.push("zds"@ + seq!['='] + "1"@).drop_last() =~= pairs);
    assert(pairs.push("tee"@ + seq!['='] + "1"@).drop_last() =~= pairs);
    assert(pairs.push(k + seq!['='] + v).drop_last() =~= pairs);
    assert(pairs.push(k).drop_last() =~= pairs);
}

/// What is shown: what has each property that is asked for, and, where something is looked
/// for, holds it in its name or in its id, in lower case.
pub proof fn law_filters_let_through(
    f: Filter,
    name: Seq<char>,
    id: Seq<char>,
    zdr: bool,
    zds: bool,
    tee: bool,
)
    ensures
        passes(f, name, id, zdr, zds, tee) <==> (!f.zdr || zdr) && (!f.zds || zds) && (!f.tee
            || tee) && (f.search.len() == 0 || stands_in(f.search, unicode_lowercase(name))
            || stands_in(f.search, unicode_lowercase(id))),
{
    lemma_stands_in(f.search, unicode_lowercase(name));
    lemma_stands_in(f.search, unicode_lowercase(id));
}

/// What each pair of a listing's query asks for: a currency by its code, in letters of either
/// case, and details; nothing else changes anything.
pub proof fn law_listings_are_asked_for(pairs: Seq<Seq<char>>, k: Seq<char>, v: Seq<char>)
    requires
        is_name(k),
    ensures
        ({
            let q = asked_in(pairs);
            &&& asked_in(pairs.push("currency"@ + seq!['='] + v)) == (ListQuery {
                currency: currency_or(v, q.currency),
                ..q
            })
            &&& asked_in(pairs.push("detailed"@ + seq!['='] + "true"@)) == (ListQuery {
                detailed: true,
                ..q
            })
            &&& v != "true"@ ==> asked_in(pairs.push("detailed"@ + seq!['='] + v)) == q
            &&& k != "currency"@ && k != "detailed"@ ==> asked_in(pairs.push(k + seq!['='] + v))
                == q
            &&& asked_in(pairs.push(k)) == q
        }),
        asked_in(seq![]).currency == Currency::USD,
        !asked_in(seq![]).detailed,
{
    lemma_words();
    lemma_pair("currency"@, v);
    lemma_pair("detailed"@, v);
    lemma_pair("detailed"@, "true"@);
    lemma_pair(k, v);
    assert(pairs.push("currency"@ + seq!['='] + v).drop_last() =~= pairs);
    assert(pairs.push("detailed"@ + seq!['='] + v).drop_last() =~= pairs);
    assert(pairs.push("detailed"@ + seq!['='] + "true"@).drop_last() =~= pairs);
    assert(pairs.push(k + seq!['='] + v).drop_last() =~= pairs);
    assert(pairs.push(k).drop_last() =~= pairs);
}

/// A code of a currency stands for it, and any other leaves the currency as it was.
pub proof fn law_codes_name_currencies(code: Seq<char>, c: Currency, otherwise: Currency)
    ensures
        unicode_uppercase(code) == currency::code_of(c) ==> currency_or(code, otherwise) == c,
        unicode_uppercase(code) != "USD"@ && unicode_uppercase(code) != "EUR"@
            && unicode_uppercase(code) != "JPY"@ && unicode_uppercase(code) != "CHF"@
            ==> currency_or(code, otherwise) == otherwise,
        currency::code_of(Currency::USD) == "USD"@,
        currency::code_of(Currency::EUR) == "EUR"@,
        currency::code_of(Currency::JPY) == "JPY"@,
        currency::code_of(Currency::CHF) == "CHF"@,
{
    reveal_strlit("USD");
    reveal_strlit("EUR");
    reveal_strlit("JPY");
    reveal_strlit("CHF");
    assert("USD"@[0] == 'U' && "EUR"@[0] == 'E' && "JPY"@[0] == 'J' && "CHF"@[0] == 'C');
}

/// Whether a text has no question mark.
pub open spec fn is_path(s: Seq<char>) -> bool {
    forall|i: int| 0 <= i < s.len() ==> #[trigger] s[i] != '?'
}

/// A listing is asked for with what stands between the first question mark and the next, if
/// there is any.
pub proof fn law_queries_follow_the_mark(path: Seq<char>, asked: Seq<char>, more: Seq<char>)
    requires
        is_path(path),
        is_path(asked),
    ensures
        asked_of(path) == asked_in(seq![]),
        asked_of(path + seq!['?'] + asked) == asked_in(split_on(asked, '&')),
        asked_of(path + seq!['?'] + (asked + seq!['?'] + more)) == asked_in(split_on(asked, '&')),
{
    lemma_marks(path, asked);
    lemma_marks(path, asked + seq!['?'] + more);
    lemma_marks(asked, more);
    lemma_no_mark(path);
    lemma_no_mark(asked);
    assert(split_on(path + seq!['?'] + asked, '?')[1] == asked);
    assert(split_on(path + seq!['?'] + (asked + seq!['?'] + more), '?')[1] == asked);
}

proof fn lemma_no_mark(s: Seq<char>)
    requires
        is_path(s),
    ensures
        split_on(s, '?') == seq![s],
{
    lemma_find_char(s, '?', 0);
}

proof fn lemma_marks(a: Seq<char>, b: Seq<char>)
    requires
        is_path(a),
    ensures
        split_on(a + seq!['?'] + b, '?') == seq![a] + split_on(b, '?'),
        split_on(b, '?').len() >= 1,
{
    let s = a + seq!['?'] + b;
    lemma_find_char(s, '?', 0);
    assert(s[a.len() as int] == '?');
    let i = find_char(s, '?', 0)->0;
    if i < a.len() {
        assert(s[i] == a[i]);
    }
    assert(i == a.len());
    assert(s.take(i) =~= a);
    assert(s.skip(i + 1) =~= b);
    crate::text::lemma_split_lengths(b, '?');
}

// ---------------------------------------------------------------------------
// Prices
// ---------------------------------------------------------------------------

/// Some zeros.
pub open spec fn zeros(n: nat) -> Seq<char>
    decreases n,
{
    if n == 0 {
        seq![]
    } else {
        zeros((n - 1) as nat) + "0"@
    }
}

proof fn lemma_zeros_go(s: Seq<char>, n: nat)
    ensures
        without_suffixes(s + zeros(n), "0"@) == without_suffixes(s, "0"@),
    decreases n,
{
    reveal_strlit("0");
    if n > 0 {
        lemma_zeros_go(s, (n - 1) as nat);
        let front = s + zeros((n - 1) as nat);
        assert(s + zeros(n) =~= front + "0"@);
        law_copies_at_the_ends_go(front, "0"@);
    } else {
        assert(s + zeros(0) =~= s);
    }
}

proof fn lemma_last_stays(s: Seq<char>, c: char, p: Seq<char>)
    requires
        p.len() == 1,
        c != p[0],
    ensures
        without_suffixes(s.push(c), p) == s.push(c),
{
    let t = s.push(c);
    if crate::text::has_suffix(t, p) {
        assert(t.subrange(t.len() - 1, t.len() as int)[0] == c);
    }
}

/// Zeros at the end of a price are left out behind the point, and the point with them where
/// nothing else stands behind it.
pub proof fn law_prices_lose_their_zeros(whole: Seq<char>, part: Seq<char>, last: char, n: nat)
    requires
        last != '0',
        last != '.',
        whole.len() > 0,
        whole.last() != '.',
    ensures
        price_shown(whole + seq!['.'] + zeros(n)) == whole,
        cost_shown(whole + seq!['.'] + zeros(n)) == whole,
        price_shown((whole + seq!['.'] + part).push(last) + zeros(n)) == (whole + seq!['.']
            + part).push(last),
        cost_shown((whole + seq!['.'] + part).push(last) + zeros(n)) == (whole + seq!['.']
            + part).push(last),
{
    reveal_strlit("0");
    reveal_strlit(".");
    let dot = whole + seq!['.'];
    assert("."@ =~= seq!['.']);
    assert(dot =~= whole.push('.'));
    lemma_zeros_go(dot, n);
    lemma_last_stays(whole, '.', "0"@);
    assert(without_suffixes(dot + zeros(n), "0"@) == dot);
    assert(dot.subrange(dot.len() - 1, dot.len() as int) =~= "."@);
    assert(dot.take(dot.len() - 1) =~= whole);
    law_copies_at_the_ends_go(whole, "."@);
    assert(whole + "."@ =~= dot);
    assert(whole =~= whole.drop_last().push(whole.last()));
    lemma_last_stays(whole.drop_last(), whole.last(), "."@);
    let full = (whole + seq!['.'] + part).push(last);
    lemma_zeros_go(full, n);
    lemma_last_stays(whole + seq!['.'] + part, last, "0"@);
    lemma_last_stays(whole + seq!['.'] + part, last, "."@);
    assert(without_suffixes(full + zeros(n), "0"@) == full);
    if crate::text::has_suffix(full, "."@) {
        assert(full.subrange(full.len() - 1, full.len() as int)[0] == last);
    }
}

/// A cost of nothing is shown as one.
pub proof fn law_no_cost_is_shown(n: nat)
    ensures
        cost_shown(zeros(n)) == "0.0"@,
        cost_shown(seq!['.'] + zeros(n)) == "0.0"@,
{
    reveal_strlit("0");
    reveal_strlit(".");
    let none = Seq::<char>::empty();
    assert("."@ =~= seq!['.']);
    lemma_zeros_go(none, n);
    assert(none + zeros(n) =~= zeros(n));
    lemma_zeros_go(seq!['.'], n);
    assert(none.push('.') =~= seq!['.']);
    lemma_last_stays(none, '.', "0"@);
    law_copies_at_the_ends_go(none, "."@);
    assert(none + "."@ =~= seq!['.']);
    assert(without_suffixes(none, "0"@) =~= none);
    assert(without_suffixes(none, "."@) =~= none);
}

// ---------------------------------------------------------------------------
// What a listing tells
// ---------------------------------------------------------------------------

proof fn lemma_at(fields: Seq<(Seq<char>, JsonValue)>, k: int)
    requires
        0 <= k < fields.len(),
        forall|j: int| 0 <= j < k ==> (#[trigger] fields[j]).0 != fields[k].0,
    ensures
        field_of(fields, fields[k].0) == Some(fields[k].1),
        JsonValue::Obj(fields).get(fields[k].0) == Some(fields[k].1),
{
    lemma_key_at(fields, fields[k].0, 0);
    assert(fields[k].0 == fields[k].0);
}

proof fn lemma_keys_differ()
    ensures
        "object"@ != "id"@,
        "created"@ != "id"@ && "created"@ != "object"@,
        "owned_by"@ != "id"@ && "owned_by"@ != "object"@ && "owned_by"@ != "created"@,
        "name"@ != "id"@ && "name"@ != "object"@ && "name"@ != "created"@ && "name"@ != "owned_by"@,
        "pricing"@ != "id"@ && "pricing"@ != "object"@ && "pricing"@ != "created"@ && "pricing"@
            != "owned_by"@ && "pricing"@ != "name"@,
        "context_length"@.len() == 14,
        "max_output_length"@.len() == 17,
        "architecture"@.len() == 12,
        "input_modalities"@.len() == 16,
        "output_modalities"@.len() == 17,
        "max_output_length"@[0] != "output_modalities"@[0],
        "supported_sampling_parameters"@.len() == 29,
        "supported_features"@.len() == 18,
        "top_provider"@.len() == 12,
        "architecture"@[0] != "top_provider"@[0],
        "providers"@.len() == 9,
        "id"@.len() == 2 && "object"@.len() == 6 && "created"@.len() == 7 && "owned_by"@.len() == 8
            && "name"@.len() == 4 && "pricing"@.len() == 7,
        "input"@.len() == 5 && "output"@.len() == 6 && "prompt"@.len() == 6 && "completion"@.len()
            == 10 && "image"@.len() == 5 && "request"@.len() == 7 && "currency"@.len() == 8,
        "output"@[0] != "prompt"@[0],
        "input"@[1] != "image"@[1],
        "data"@.len() == 4,
{
    reveal_strlit("id");
    reveal_strlit("object");
    reveal_strlit("created");
    reveal_strlit("owned_by");
    reveal_strlit("name");
    reveal_strlit("pricing");
    reveal_strlit("context_length");
    reveal_strlit("max_output_length");
    reveal_strlit("architecture");
    reveal_strlit("input_modalities");
    reveal_strlit("output_modalities");
    reveal_strlit("supported_sampling_parameters");
    reveal_strlit("supported_features");
    reveal_strlit("top_provider");
    reveal_strlit("providers");
    reveal_strlit("input");
    reveal_strlit("output");
    reveal_strlit("prompt");
    reveal_strlit("completion");
    reveal_strlit("image");
    reveal_strlit("request");
    reveal_strlit("currency");
    reveal_strlit("data");
    assert("id"@.len() == 2 && "object"@.len() == 6 && "created"@.len() == 7 && "owned_by"@.len()
        == 8 && "name"@.len() == 4 && "pricing"@.len() == 7);
    assert("created"@[0] == 'c' && "pricing"@[0] == 'p');
}

/// What a listing tells of a model: its name, its price in each of its forms, how much it
/// reads and writes, and who offers it.
pub proof fn law_details_are_told(
    id: Seq<char>,
    m: ModelFacts,
    p: Pricing,
    providers: Seq<Seq<char>>,
)
    ensures
        ({
            let v = detailed_value(id, m, p, providers);
            &&& v.get("id"@) == Some(JsonValue::Str(id))
            &&& v.get("object"@) == Some(JsonValue::Str("model"@))
            &&& v.get("name"@) == Some(JsonValue::Str(m.name))
            &&& v.get("pricing"@) == Some(pricing_value(p))
            &&& v.get("context_length"@) == Some(JsonValue::Unsigned(m.context))
            &&& v.get("max_output_length"@) == Some(JsonValue::Unsigned(m.completion))
            &&& v.get("supported_sampling_parameters"@) == Some(without_stop(m.sampling))
            &&& v.get("supported_features"@) == Some(m.features)
            &&& v.get("providers"@) matches Some(JsonValue::Arr(w)) && w.len() == providers.len()
                && forall|i: int|
                0 <= i < w.len() ==> #[trigger] w[i] == JsonValue::Str(providers[i])
        }),
        short_value(id).get("id"@) == Some(JsonValue::Str(id)),
        short_value(id).get("object"@) == Some(JsonValue::Str("model"@)),
        short_value(id).get("created"@) == Some(JsonValue::Unsigned(0)),
        short_value(id).get("owned_by"@) == Some(JsonValue::Str("system"@)),
{
    lemma_keys_differ();
    let f = detailed_value(id, m, p, providers)->Obj_0;
    let s = short_value(id)->Obj_0;
    lemma_at(s, 0);
    lemma_at(s, 1);
    lemma_at(s, 2);
    lemma_at(s, 3);
    lemma_at(f, 0);
    lemma_at(f, 1);
    lemma_at(f, 4);
    lemma_at(f, 5);
    lemma_at(f, 6);
    lemma_at(f, 7);
    lemma_at(f, 11);
    lemma_at(f, 12);
    lemma_at(f, 14);
}

/// A price is told as numbers, as texts and with its currency.
pub proof fn law_prices_are_told(p: Pricing, items: Seq<JsonValue>)
    ensures
        pricing_value(p).get("input"@) == Some(JsonValue::Float(p.input)),
        pricing_value(p).get("output"@) == Some(JsonValue::Float(p.output)),
        pricing_value(p).get("prompt"@) == Some(JsonValue::Str(p.prompt@)),
        pricing_value(p).get("completion"@) == Some(JsonValue::Str(p.completion@)),
        pricing_value(p).get("currency"@) == Some(JsonValue::Str(currency::code_of(p.currency))),
        list_value(items).get("data"@) == Some(JsonValue::Arr(items)),
        list_value(items).get("object"@) == Some(JsonValue::Str("list"@)),
{
    lemma_keys_differ();
    let f = pricing_value(p)->Obj_0;
    lemma_at(f, 0);
    lemma_at(f, 1);
    lemma_at(f, 2);
    lemma_at(f, 3);
    lemma_at(f, 6);
    let l = list_value(items)->Obj_0;
    lemma_at(l, 0);
    lemma_at(l, 1);
}

/// Exactly the models that somebody offers are listed.
pub proof fn law_offered_models_are_listed(has_offer: Seq<bool>, n: int, i: int)
    requires
        0 <= n <= has_offer.len(),
    ensures
        offered_before(has_offer, n).contains(i) <==> 0 <= i < n && has_offer[i],
    decreases n,
{
    let all = offered_before(has_offer, n);
    if n > 0 {
        let before = offered_before(has_offer, n - 1);
        law_offered_models_are_listed(has_offer, n - 1, i);
        if all.contains(i) {
            let x = choose|x: int| 0 <= x < all.len() && all[x] == i;
            if x < before.len() {
                assert(before[x] == i);
            }
        }
        if 0 <= i < n && has_offer[i] {
            if i < n - 1 {
                let x = choose|x: int| 0 <= x < before.len() && before[x] == i;
                assert(all[x] == i);
            } else {
                assert(all[before.len() as int] == i);
            }
        }
    } else {
        assert(!all.contains(i));
    }
}

} // verus!
