//! Where a request leads, and what is said in return.

use vstd::prelude::*;
use vstd::utf8::encode_utf8;

use crate::connections::https_address;
use crate::connections::onion_port_of;
use crate::connections::plain_redirect;
use crate::health::retry_after_of;
use crate::http::can_cut;
use crate::http::header_table;
use crate::http::page_headers;
use crate::http::shortened;
use crate::http::style_hash;
use crate::http::upstream_error;
use crate::i18n;
use crate::i18n::phrase;
use crate::i18n::translated;
use crate::i18n::Locale;
use crate::i18n::Phrase;
use crate::keys::enclave_of;
use crate::keys::key_address;
use crate::keys::model_in;
use crate::nearai_models::default_endpoint;
use crate::primitives::base64_of;
use crate::primitives::sha512_of;
use crate::provider_laws::law_wait_is_read;
use crate::provider_laws::lemma_stands_in;
use crate::provider_laws::stands_in;
use crate::request_laws::first_says;
use crate::request_laws::law_first_entry_counts;
use crate::request_laws::says_nothing;
use crate::router::destination_of;
use crate::router::extension_of;
use crate::router::file_type;
use crate::router::font_type;
use crate::router::law_language_takes_three_characters;
use crate::router::Destination;
use crate::router::Method;
use crate::state::ModelFacts;
use crate::stream_laws::blank;
use crate::stream_laws::lemma_trimmed_end;
use crate::table::entry_of;
use crate::table::law_table_keeps_what_it_is_given;
use crate::text;
use crate::text::decimal;
use crate::text::find_char;
use crate::text::has_prefix;
use crate::text::lemma_find_char;
use crate::text::parsed_u64;
use crate::text::space_end;
use crate::text::split_on;
use crate::text::unicode_lowercase;
use crate::text::unicode_whitespace;
use crate::text::word_end;
use crate::text::words_from;
use crate::text_laws::law_copies_at_the_ends_go;
use crate::text_laws::law_replaced_characters_are_gone;
use crate::time::date_of;
use crate::time::month_number;
use crate::time::seconds_since_1970;
use crate::time::HttpDate;
use crate::timing::LineKind;

verus! {

// ---------------------------------------------------------------------------
// Cutting
// ---------------------------------------------------------------------------

/// Whether a text lacks a character.
pub open spec fn lacks(s: Seq<char>, c: char) -> bool {
    forall|i: int| 0 <= i < s.len() ==> #[trigger] s[i] != c
}

proof fn lemma_uncut(s: Seq<char>, c: char)
    requires
        lacks(s, c),
    ensures
        split_on(s, c) == seq![s],
{
    lemma_find_char(s, c, 0);
}

proof fn lemma_cut(a: Seq<char>, c: char, b: Seq<char>)
    requires
        lacks(a, c),
    ensures
        split_on(a + seq![c] + b, c) == seq![a] + split_on(b, c),
        split_on(b, c).len() >= 1,
{
    let s = a + seq![c] + b;
    lemma_find_char(s, c, 0);
    assert(s[a.len() as int] == c);
    let i = find_char(s, c, 0)->0;
    if i < a.len() {
        assert(s[i] == a[i]);
    }
    assert(i == a.len());
    assert(s.take(i) =~= a);
    assert(s.skip(i + 1) =~= b);
    text::lemma_split_lengths(b, c);
}

proof fn lemma_last_piece(s: Seq<char>, c: char, end: Seq<char>)
    requires
        lacks(end, c),
    ensures
        split_on(s + seq![c] + end, c).last() == end,
    decreases s.len(),
{
    let whole = s + seq![c] + end;
    lemma_find_char(s, c, 0);
    match find_char(s, c, 0) {
        Some(i) => {
            let a = s.take(i);
            let b = s.skip(i + 1);
            assert(lacks(a, c)) by {
                assert forall|j: int| 0 <= j < a.len() implies #[trigger] a[j] != c by {
                    assert(a[j] == s[j]);
                }
            }
            lemma_last_piece(b, c, end);
            lemma_cut(a, c, b + seq![c] + end);
            assert(whole =~= a + seq![c] + (b + seq![c] + end));
        },
        None => {
            lemma_cut(s, c, end);
            lemma_uncut(end, c);
        },
    }
}

// ---------------------------------------------------------------------------
// Where a request leads
// ---------------------------------------------------------------------------

proof fn lemma_prefix(p: Seq<char>, s: Seq<char>)
    ensures
        has_prefix(p + s, p),
{
    assert((p + s).subrange(0, p.len() as int) =~= p);
}

proof fn lemma_not_prefix(s: Seq<char>, p: Seq<char>, i: int)
    requires
        0 <= i < p.len(),
        i < s.len() ==> s[i] != p[i],
    ensures
        !has_prefix(s, p),
{
    if has_prefix(s, p) {
        assert(s.subrange(0, p.len() as int)[i] == s[i]);
    }
}

/// The services that a request can ask for, each at its path; a request to ask what may be
/// asked is answered everywhere.
pub proof fn law_services_have_their_paths(path: Seq<char>, query: Option<Seq<char>>)
    ensures
        destination_of(Method::Options, path, query) is Preflight,
        destination_of(Method::Get, "/health"@, query) is Health,
        destination_of(Method::Get, "/favicon.ico"@, query) is Favicon,
        destination_of(Method::Get, "/v1/models"@, query) is ModelsList,
        destination_of(Method::Get, "/v1/keys/ephemeral"@, query) is EphemeralKeys,
        destination_of(Method::Post, "/v1/keys/ephemeral"@, query) is EphemeralKeys,
        destination_of(Method::Post, "/v1/chat/completions"@, query) is ChatCompletions,
        destination_of(Method::Post, "/v1/models"@, query) is Nothing,
        destination_of(Method::Get, "/v1/chat/completions"@, query) is Nothing,
{
    reveal_strlit("/health");
    reveal_strlit("/favicon.ico");
    reveal_strlit("/v1/models");
    reveal_strlit("/v1/keys/ephemeral");
    reveal_strlit("/v1/chat/completions");
    reveal_strlit("/v1/");
    reveal_strlit("/fonts/");
    reveal_strlit("/static/");
    reveal_strlit("/v1/models/nearai/");
    assert("/v1/models"@.subrange(0, 4) =~= "/v1/"@);
    assert("/v1/keys/ephemeral"@.subrange(0, 4) =~= "/v1/"@);
    assert("/v1/chat/completions"@.subrange(0, 4) =~= "/v1/"@);
    lemma_not_prefix("/favicon.ico"@, "/fonts/"@, 2);
    lemma_not_prefix("/favicon.ico"@, "/static/"@, 1);
    lemma_not_prefix("/v1/models"@, "/fonts/"@, 1);
    lemma_not_prefix("/v1/models"@, "/static/"@, 1);
    lemma_not_prefix("/v1/keys/ephemeral"@, "/fonts/"@, 1);
    lemma_not_prefix("/v1/keys/ephemeral"@, "/static/"@, 1);
    lemma_not_prefix("/v1/chat/completions"@, "/fonts/"@, 1);
    lemma_not_prefix("/v1/chat/completions"@, "/static/"@, 1);
    lemma_not_prefix("/v1/chat/completions"@, "/v1/models/nearai/"@, 4);
    assert("/health"@.len() == 7 && "/favicon.ico"@.len() == 12 && "/v1/models"@.len() == 10
        && "/v1/keys/ephemeral"@.len() == 18 && "/v1/chat/completions"@.len() == 20);
}

/// Files are served by their names, unless a name could lead out of their directory.
pub proof fn law_files_are_served_by_name(name: Seq<char>, query: Option<Seq<char>>)
    requires
        !has_prefix(name, "/fonts/"@),
        !has_prefix(name, "/static/"@),
    ensures
        ({
            let out = stands_in(".."@, name) || stands_in("/"@, name) || stands_in("\\"@, name);
            &&& destination_of(Method::Get, "/fonts/"@ + name, query) == (if out {
                Destination::Forbidden
            } else {
                Destination::Font(name)
            })
            &&& destination_of(Method::Get, "/static/"@ + name, query) == (if out {
                Destination::Forbidden
            } else {
                Destination::StaticFile(name)
            })
        }),
{
    reveal_strlit("/fonts/");
    reveal_strlit("/static/");
    reveal_strlit("/health");
    let f = "/fonts/"@ + name;
    let s = "/static/"@ + name;
    lemma_prefix("/fonts/"@, name);
    lemma_prefix("/static/"@, name);
    assert(f.skip(7) =~= name);
    assert(s.skip(8) =~= name);
    assert(f[1] == 'f' && s[1] == 's' && "/health"@[1] == 'h');
    lemma_not_prefix(s, "/fonts/"@, 1);
    reveal_with_fuel(text::without_prefixes, 2);
    lemma_stands_in(".."@, name);
    lemma_stands_in("/"@, name);
    lemma_stands_in("\\"@, name);
}

/// The key of a model's enclave is asked for under the model's name, and from the enclave
/// that is known for it.
pub proof fn law_keys_are_asked_by_model(
    model: Seq<char>,
    query: Option<Seq<char>>,
    asked: Seq<char>,
    models: Seq<(Seq<char>, ModelFacts)>,
    facts: ModelFacts,
    endpoint: Seq<char>,
)
    requires
        forall|tail: Seq<char>| model + "/key"@ != #[trigger] ("/v1/models/nearai/"@ + tail),
        forall|head: Seq<char>| model != #[trigger] (head + "/key"@),
    ensures
        destination_of(Method::Get, "/v1/models/nearai/"@ + (model + "/key"@), query) is NearAiKey,
        model_in("/v1/models/nearai/"@ + (model + "/key"@)) == model,
        first_says(models, unicode_lowercase(model), facts) && facts.endpoint == Some(endpoint)
            ==> enclave_of(model, Some(models)) == endpoint,
        first_says(models, unicode_lowercase(model), facts) && facts.endpoint is None ==> enclave_of(
            model,
            Some(models),
        ) == default_endpoint(model),
        says_nothing(models, unicode_lowercase(model)) ==> enclave_of(model, Some(models))
            == default_endpoint(model),
        enclave_of(model, None) == default_endpoint(model),
        asked.len() > 0 ==> key_address(
            "/v1/models/nearai/"@ + (model + "/key"@),
            asked,
            Some(models),
        ) == enclave_of(model, Some(models)) + "/v1/attestation/report?"@ + asked,
        key_address("/v1/models/nearai/"@ + (model + "/key"@), seq![], Some(models)) == enclave_of(
            model,
            Some(models),
        ) + "/v1/attestation/report?"@ + "signing_algo=ed25519&include_tls_fingerprint=true"@,
{
    let p = "/v1/models/nearai/"@;
    let e = "/key"@;
    let path = p + (model + e);
    law_first_entry_counts(models, unicode_lowercase(model), facts);
    assert(p.len() == 18 && p[1] == 'v' && p[9] == 's' && p[17] == '/' && p.subrange(0, 4)
        == "/v1/"@) by {
        reveal_strlit("/v1/models/nearai/");
        reveal_strlit("/v1/");
        assert(p.subrange(0, 4) =~= "/v1/"@);
    }
    assert(e.len() == 4) by {
        reveal_strlit("/key");
    }
    lemma_prefix(p, model + e);
    law_copies_at_the_ends_go(model + e, p);
    law_copies_at_the_ends_go(model, e);
    assert(path[1] == 'v' && path.len() >= 22);
    assert(path.subrange(0, 4) =~= "/v1/"@) by {
        assert(p.subrange(0, 4) =~= path.subrange(0, 4));
    }
    assert(path.subrange(path.len() - 4, path.len() as int) =~= e);
    reveal_strlit("/health");
    reveal_strlit("/favicon.ico");
    reveal_strlit("/fonts/");
    reveal_strlit("/static/");
    reveal_strlit("/v1/models");
    reveal_strlit("/v1/keys/ephemeral");
    lemma_not_prefix(path, "/fonts/"@, 1);
    lemma_not_prefix(path, "/static/"@, 1);
    assert("/v1/models"@.len() == 10 && "/v1/keys/ephemeral"@.len() == 18);
    assert("/health"@.len() == 7 && "/favicon.ico"@.len() == 12);
}

/// A page without a language is shown in the default one: the first page, the models, the
/// providers, and that there is nothing anywhere else.
pub proof fn law_pages_have_their_paths(rest: Seq<char>, query: Option<Seq<char>>)
    requires
        lacks(rest, '/'),
        rest != "en"@,
        rest != "la"@,
        rest != "health"@,
        rest != "favicon.ico"@,
    ensures
        destination_of(Method::Get, seq!['/'] + rest, query) == (if rest.len() == 0 {
            Destination::Landing(Locale::La)
        } else if rest == "models"@ {
            Destination::Models(Locale::La)
        } else if rest == "providers"@ {
            Destination::Providers(Locale::La)
        } else {
            Destination::NotFound(Locale::La)
        }),
        destination_of(Method::Post, seq!['/'] + rest, query) == Destination::NotFound(Locale::La),
{
    let path = seq!['/'] + rest;
    let none = Seq::<char>::empty();
    assert(none + seq!['/'] + rest =~= path);
    lemma_cut(none, '/', rest);
    lemma_uncut(rest, '/');
    let parts = split_on(path, '/');
    assert(parts =~= seq![none, rest]);
    assert(path.skip(1) =~= rest);
    reveal_strlit("/health");
    reveal_strlit("/favicon.ico");
    reveal_strlit("health");
    reveal_strlit("favicon.ico");
    reveal_strlit("/");
    reveal_strlit("/models");
    reveal_strlit("/providers");
    reveal_strlit("models");
    reveal_strlit("providers");
    reveal_strlit("/la");
    reveal_strlit("/la/");
    reveal_strlit("la");
    reveal_strlit("en");
    reveal_strlit("/fonts/");
    reveal_strlit("/static/");
    reveal_strlit("/v1/");
    assert("/health"@ =~= seq!['/'] + "health"@);
    assert("/favicon.ico"@ =~= seq!['/'] + "favicon.ico"@);
    assert("/models"@ =~= seq!['/'] + "models"@);
    assert("/providers"@ =~= seq!['/'] + "providers"@);
    assert("/la"@ =~= seq!['/'] + "la"@);
    assert("/"@ =~= seq!['/'] + none);
    lemma_slash_names(rest, "health"@);
    lemma_slash_names(rest, "favicon.ico"@);
    lemma_slash_names(rest, "models"@);
    lemma_slash_names(rest, "providers"@);
    lemma_slash_names(rest, "la"@);
    lemma_slash_names(rest, none);
    lemma_no_inner_slash(rest, "/la/"@, 3);
    lemma_no_inner_slash(rest, "/fonts/"@, 6);
    lemma_no_inner_slash(rest, "/static/"@, 7);
    lemma_no_inner_slash(rest, "/v1/"@, 3);
    assert("models"@.len() == 6 && "providers"@.len() == 9);
    i18n_la();
}

proof fn i18n_la()
    ensures
        i18n::locale_of("la"@) == Locale::La,
        i18n::locale_of("en"@) == Locale::En,
{
    reveal_strlit("la");
    reveal_strlit("en");
    assert("la"@[0] == 'l' && "en"@[0] == 'e');
}

proof fn lemma_slash_names(a: Seq<char>, b: Seq<char>)
    ensures
        seq!['/'] + a == seq!['/'] + b <==> a == b,
{
    assert((seq!['/'] + a).skip(1) =~= a);
    assert((seq!['/'] + b).skip(1) =~= b);
}

proof fn lemma_no_inner_slash(rest: Seq<char>, p: Seq<char>, at: int)
    requires
        lacks(rest, '/'),
        0 < at < p.len(),
        p[at] == '/',
    ensures
        !has_prefix(seq!['/'] + rest, p),
{
    let path = seq!['/'] + rest;
    if at < path.len() {
        assert(path[at] == rest[at - 1]);
    }
    lemma_not_prefix(path, p, at);
}

/// A page of the other language is shown in it.
pub proof fn law_english_pages_have_their_paths(rest: Seq<char>, query: Option<Seq<char>>)
    requires
        lacks(rest, '/'),
    ensures
        destination_of(Method::Get, "/en"@, query) == Destination::Landing(Locale::En),
        destination_of(Method::Get, "/en/"@ + rest, query) == (if rest.len() == 0 {
            Destination::Landing(Locale::En)
        } else if rest == "models"@ {
            Destination::Models(Locale::En)
        } else if rest == "providers"@ {
            Destination::Providers(Locale::En)
        } else {
            Destination::NotFound(Locale::En)
        }),
{
    let none = Seq::<char>::empty();
    let path = "/en/"@ + rest;
    reveal_strlit("/en");
    reveal_strlit("/en/");
    reveal_strlit("en");
    reveal_strlit("/");
    reveal_strlit("/models");
    reveal_strlit("/providers");
    reveal_strlit("models");
    reveal_strlit("providers");
    reveal_strlit("/la");
    reveal_strlit("/la/");
    reveal_strlit("/health");
    reveal_strlit("/favicon.ico");
    reveal_strlit("/fonts/");
    reveal_strlit("/static/");
    reveal_strlit("/v1/");
    assert(path =~= none + seq!['/'] + ("en"@ + seq!['/'] + rest));
    lemma_cut(none, '/', "en"@ + seq!['/'] + rest);
    lemma_cut("en"@, '/', rest);
    lemma_uncut(rest, '/');
    assert(split_on(path, '/') =~= seq![none, "en"@, rest]);
    assert("/en"@ =~= none + seq!['/'] + "en"@);
    lemma_cut(none, '/', "en"@);
    lemma_uncut("en"@, '/');
    assert(split_on("/en"@, '/') =~= seq![none, "en"@]);
    assert(path[1] == 'e' && "/en"@[1] == 'e');
    lemma_not_prefix(path, "/la/"@, 1);
    lemma_not_prefix(path, "/fonts/"@, 1);
    lemma_not_prefix(path, "/static/"@, 1);
    lemma_not_prefix(path, "/v1/"@, 1);
    lemma_not_prefix("/en"@, "/la/"@, 1);
    lemma_not_prefix("/en"@, "/fonts/"@, 1);
    lemma_not_prefix("/en"@, "/static/"@, 1);
    lemma_not_prefix("/en"@, "/v1/"@, 1);
    assert("/la"@[1] == 'l' && "/health"@[1] == 'h' && "/favicon.ico"@[1] == 'f');
    if rest.len() > 0 {
        law_language_takes_three_characters(path);
        assert(path.skip(3) =~= seq!['/'] + rest);
        assert("/models"@ =~= seq!['/'] + "models"@);
        assert("/providers"@ =~= seq!['/'] + "providers"@);
        assert("/"@ =~= seq!['/'] + none);
        lemma_slash_names(rest, "models"@);
        lemma_slash_names(rest, "providers"@);
        lemma_slash_names(rest, none);
        assert("models"@.len() == 6 && "providers"@.len() == 9);
    }
    i18n_la();
}

/// A page of the default language leads to the same page without the language, with the same
/// query.
pub proof fn law_default_language_is_dropped(method: Method, rest: Seq<char>, query: Seq<char>)
    requires
        method != Method::Options,
        lacks(rest, '/'),
    ensures
        destination_of(method, "/la/"@ + rest, None) == Destination::Redirect(seq!['/'] + rest),
        destination_of(method, "/la/"@ + rest, Some(query)) == Destination::Redirect(
            seq!['/'] + rest + "?"@ + query,
        ),
        destination_of(method, "/la"@, None) == Destination::Redirect("/"@),
{
    let none = Seq::<char>::empty();
    let path = "/la/"@ + rest;
    reveal_strlit("/la/");
    reveal_strlit("/la");
    reveal_strlit("la");
    reveal_strlit("/");
    reveal_strlit("/health");
    reveal_strlit("/favicon.ico");
    reveal_strlit("/fonts/");
    reveal_strlit("/static/");
    reveal_strlit("/v1/");
    assert(path =~= none + seq!['/'] + ("la"@ + seq!['/'] + rest));
    lemma_cut(none, '/', "la"@ + seq!['/'] + rest);
    lemma_cut("la"@, '/', rest);
    lemma_uncut(rest, '/');
    assert(split_on(path, '/') =~= seq![none, "la"@, rest]);
    assert("/la"@ =~= none + seq!['/'] + "la"@);
    lemma_cut(none, '/', "la"@);
    lemma_uncut("la"@, '/');
    assert(split_on("/la"@, '/') =~= seq![none, "la"@]);
    assert(path[1] == 'l' && "/la"@[1] == 'l');
    lemma_not_prefix(path, "/fonts/"@, 1);
    lemma_not_prefix(path, "/static/"@, 1);
    lemma_not_prefix(path, "/v1/"@, 1);
    lemma_not_prefix("/la"@, "/fonts/"@, 1);
    lemma_not_prefix("/la"@, "/static/"@, 1);
    lemma_not_prefix("/la"@, "/v1/"@, 1);
    assert("/health"@[1] == 'h' && "/favicon.ico"@[1] == 'f');
    lemma_prefix("/la/"@, rest);
    if rest.len() > 0 {
        law_language_takes_three_characters(path);
        assert(path.skip(3) =~= seq!['/'] + rest);
    } else {
        assert("/"@ =~= seq!['/'] + rest);
    }
}

/// The kind of a file is told by what stands behind its last dot.
pub proof fn law_files_are_what_they_end_in(base: Seq<char>, end: Seq<char>)
    requires
        lacks(end, '.'),
    ensures
        extension_of(base + seq!['.'] + end) == end,
        extension_of(end) == end,
        font_type(base + seq!['.'] + end) == (if end == "woff"@ {
            "font/woff"@
        } else if end == "woff2"@ {
            "font/woff2"@
        } else if end == "ttf"@ {
            "font/ttf"@
        } else if end == "otf"@ {
            "font/otf"@
        } else {
            "application/octet-stream"@
        }),
        file_type(base + seq!['.'] + end) == (if end == "png"@ {
            "image/png"@
        } else if end == "jpg"@ || end == "jpeg"@ {
            "image/jpeg"@
        } else if end == "ico"@ {
            "image/x-icon"@
        } else if end == "svg"@ {
            "image/svg+xml"@
        } else if end == "webmanifest"@ {
            "application/manifest+json"@
        } else if end == "txt"@ {
            "text/plain; charset=utf-8"@
        } else if end == "css"@ {
            "text/css; charset=utf-8"@
        } else if end == "js"@ {
            "application/javascript; charset=utf-8"@
        } else {
            "application/octet-stream"@
        }),
{
    lemma_last_piece(base, '.', end);
    lemma_uncut(end, '.');
}

// ---------------------------------------------------------------------------
// Addresses
// ---------------------------------------------------------------------------

/// A plain request is sent to the same host and path, at the port for encryption; on the onion
/// site, all but the interface is.
pub proof fn law_plain_requests_are_sent_on(
    host: Seq<char>,
    old_port: Seq<char>,
    port: Seq<char>,
    path: Seq<char>,
    domain: Seq<char>,
    whole: Seq<char>,
)
    requires
        lacks(host, ':'),
    ensures
        https_address(Some(host), port, path) == "https://"@ + host + ":"@ + port + path,
        https_address(Some(host + seq![':'] + old_port), port, path) == "https://"@ + host + ":"@
            + port + path,
        https_address(None, port, path) == "https://"@ + "localhost"@ + ":"@ + port + path,
        plain_redirect(domain, "/v1"@ + path, Some(whole)) is None,
        !has_prefix(path, "/v1"@) ==> plain_redirect(domain, path, Some(whole)) == Some(
            "https://"@ + domain + whole,
        ) && plain_redirect(domain, path, None) == Some("https://"@ + domain + "/"@),
        onion_port_of(whole) == (if stands_in("port: 443"@, whole) {
            Some(443u16)
        } else if stands_in("port: 80"@, whole) {
            Some(80u16)
        } else {
            None
        }),
{
    lemma_uncut(host, ':');
    lemma_cut(host, ':', old_port);
    reveal_strlit("localhost");
    assert(lacks("localhost"@, ':'));
    lemma_uncut("localhost"@, ':');
    lemma_prefix("/v1"@, path);
    lemma_stands_in("port: 443"@, whole);
    lemma_stands_in("port: 80"@, whole);
}

// ---------------------------------------------------------------------------
// Headers and errors
// ---------------------------------------------------------------------------

/// The last header of a name, in letters of either case, is the one that counts; one whose
/// value cannot be read does not.
pub proof fn law_last_header_counts(
    headers: Seq<(Seq<char>, Option<Seq<char>>)>,
    name: Seq<char>,
    value: Seq<char>,
    other: Seq<char>,
)
    ensures
        entry_of(header_table(headers.push((name, Some(value)))), unicode_lowercase(name)) == Some(
            value,
        ),
        other != unicode_lowercase(name) ==> entry_of(
            header_table(headers.push((name, Some(value)))),
            other,
        ) == entry_of(header_table(headers), other),
        header_table(headers.push((name, None))) == header_table(headers),
        header_table(seq![]).len() == 0,
{
    assert(headers.push((name, Some(value))).drop_last() =~= headers);
    assert(headers.push((name, None)).drop_last() =~= headers);
    law_table_keeps_what_it_is_given(
        header_table(headers),
        unicode_lowercase(name),
        value,
        other,
    );
}

/// Every page forbids scripts, frames and everything from elsewhere, and allows the one style
/// sheet of that digest.
pub proof fn law_pages_are_locked(style: Seq<char>)
    ensures
        first_says(
            page_headers(style),
            "Content-Security-Policy"@,
            "default-src 'none'; script-src 'none'; style-src "@ + style
                + "; form-action 'self'; base-uri 'none'; frame-ancestors 'none'; img-src 'self'; font-src 'self'; upgrade-insecure-requests;"@,
        ),
        first_says(page_headers(style), "X-Frame-Options"@, "DENY"@),
        first_says(page_headers(style), "X-Content-Type-Options"@, "nosniff"@),
        first_says(page_headers(style), "Referrer-Policy"@, "no-referrer"@),
        first_says(page_headers(style), "Content-Type"@, "text/html; charset=utf-8"@),
{
    reveal_strlit("Content-Security-Policy");
    reveal_strlit("X-Frame-Options");
    reveal_strlit("X-Content-Type-Options");
    reveal_strlit("Referrer-Policy");
    reveal_strlit("Content-Type");
    let h = page_headers(style);
    assert(h[0].0.len() == 23 && h[1].0.len() == 15 && h[2].0.len() == 22 && h[3].0.len() == 15
        && h[4].0.len() == 12);
    assert(h[1].0[0] == 'X' && h[3].0[0] == 'R');
    assert(h[0] == (
        "Content-Security-Policy"@,
        "default-src 'none'; script-src 'none'; style-src "@ + style
            + "; form-action 'self'; base-uri 'none'; frame-ancestors 'none'; img-src 'self'; font-src 'self'; upgrade-insecure-requests;"@,
    ));
    assert(h[1] == ("X-Frame-Options"@, "DENY"@));
    assert(h[2] == ("X-Content-Type-Options"@, "nosniff"@));
    assert(h[3] == ("Referrer-Policy"@, "no-referrer"@));
    assert(h[4] == ("Content-Type"@, "text/html; charset=utf-8"@));
}

/// A text of a hundred and fifty bytes or less is told as it is; of a longer one a beginning
/// is told, and three dots, in a hundred and fifty bytes together.
pub proof fn law_long_errors_are_cut(s: Seq<char>)
    ensures
        encode_utf8(s).len() <= 150 ==> shortened(s) == s,
        encode_utf8(s).len() > 150 && can_cut(s, 147) ==> {
            &&& encode_utf8(shortened(s)).len() == 150
            &&& shortened(s).len() >= 3
            &&& shortened(s).skip(shortened(s).len() - 3) == "..."@
            &&& shortened(s).take(shortened(s).len() - 3).is_prefix_of(s)
        },
{
    if encode_utf8(s).len() > 150 && can_cut(s, 147) {
        let n = crate::redaction::char_index(s, 147);
        lemma_char_index(s, 147);
        let head = s.take(n);
        reveal_strlit("...");
        text::lemma_encode_concat(head, "..."@);
        let r = shortened(s);
        assert(r == head + "..."@);
        assert(r.skip(r.len() - 3) =~= "..."@);
        assert(r.take(r.len() - 3) =~= head);
        assert(head =~= s.subrange(0, head.len() as int));
        text::lemma_byte_len("..."@);
        reveal_with_fuel(text::byte_len, 4);
        assert("..."@.drop_last() =~= seq!['.', '.']);
        assert("..."@.drop_last().drop_last() =~= seq!['.']);
        assert("..."@.drop_last().drop_last().drop_last() =~= seq![]);
    }
}

proof fn lemma_char_index(s: Seq<char>, offset: int)
    ensures
        0 <= crate::redaction::char_index(s, offset) <= s.len(),
    decreases s.len(),
{
    if offset > 0 && s.len() > 0 {
        lemma_char_index(s.skip(1), offset - text::char_width(s[0]));
    }
}

/// An error of a provider is told on one line.
pub proof fn law_errors_take_one_line(
    status: Seq<char>,
    retry: Option<Seq<char>>,
    body: Seq<char>,
    i: int,
)
    requires
        lacks(status, '\n'),
        lacks(status, '\r'),
        retry matches Some(r) ==> lacks(r, '\n') && lacks(r, '\r'),
        0 <= i < upstream_error(status, retry, body).len(),
    ensures
        upstream_error(status, retry, body)[i] != '\n',
        upstream_error(status, retry, body)[i] != '\r',
{
    reveal_strlit("\r");
    reveal_strlit("\n");
    reveal_strlit("");
    reveal_strlit(" ");
    reveal_strlit("Upstream error: ");
    reveal_strlit(" [Retry-After: ");
    reveal_strlit("]");
    reveal_strlit(" - ");
    assert("\r"@ =~= seq!['\r']);
    assert("\n"@ =~= seq!['\n']);
    let once = text::replaced(shortened(body), "\r"@, ""@);
    let line = text::replaced(once, "\n"@, " "@);
    assert(!""@.contains('\r'));
    assert(!" "@.contains('\n') && !" "@.contains('\r'));
    law_replaced_characters_are_gone(shortened(body), '\r', ""@, '\r');
    law_replaced_characters_are_gone(once, '\n', " "@, '\r');
    let told = match retry {
        Some(r) => if r.len() > 0 {
            " [Retry-After: "@ + r + "]"@
        } else {
            ""@
        },
        None => ""@,
    };
    assert(lacks(told, '\n') && lacks(told, '\r'));
    assert(lacks(line, '\n') && lacks(line, '\r')) by {
        assert forall|k: int| 0 <= k < line.len() implies line[k] != '\n' && line[k] != '\r' by {
            assert(line.contains(line[k]));
        }
    }
    let e = upstream_error(status, retry, body);
    assert(e == "Upstream error: "@ + status + told + " - "@ + line);
}

/// The wait that a provider asks for is read back from the error that tells of it.
pub proof fn law_waits_are_passed_on(status: Seq<char>, n: u64, body: Seq<char>)
    requires
        !stands_in("Retry-After: "@, "Upstream error: "@ + status + " ["@ + "Retry-After:"@),
        !unicode_whitespace(']'),
        forall|c: char| '0' <= c <= '9' ==> !#[trigger] unicode_whitespace(c),
    ensures
        retry_after_of(upstream_error(status, Some(decimal(n as nat)), body)) == Some(n),
{
    let d = decimal(n as nat);
    crate::redaction_roundtrip::lemma_decimal(n as nat);
    let e = upstream_error(status, Some(d), body);
    let before = "Upstream error: "@ + status + " ["@;
    let line = text::replaced(text::replaced(shortened(body), "\r"@, ""@), "\n"@, " "@);
    let after = " - "@ + line;
    assert(" [Retry-After: "@ =~= " ["@ + "Retry-After: "@) by {
        reveal_strlit(" [Retry-After: ");
        reveal_strlit(" [");
        reveal_strlit("Retry-After: ");
    }
    assert("]"@ =~= seq![']']) by {
        reveal_strlit("]");
    }
    let none = Seq::<char>::empty();
    assert(e =~= before + "Retry-After: "@ + (none + d + none + seq![']'] + after));
    law_wait_is_read(before, none, none, after, n);
}

/// What is passed on of a line: the end of the stream, an event as it was made fit or else as
/// it came, and anything else as it came.
pub proof fn law_lines_are_passed_on(content: Seq<char>, clean: Seq<char>)
    ensures
        crate::http::relayed(LineKind::Nothing, Some(clean)) is None,
        crate::http::relayed(LineKind::Done, Some(clean)) == Some("data: [DONE]\n\n"@),
        crate::http::relayed(LineKind::Data(content), Some(clean)) == Some(
            "data: "@ + clean + "\n\n"@,
        ),
        crate::http::relayed(LineKind::Data(content), None) == Some("data: "@ + content + "\n\n"@),
        crate::http::relayed(LineKind::Bare(content), Some(clean)) == Some(content + "\n"@),
        crate::http::relayed(LineKind::Other(content), Some(clean)) == Some(content + "\n"@),
{
}

// ---------------------------------------------------------------------------
// Languages
// ---------------------------------------------------------------------------

proof fn lemma_phrase(all: Seq<Phrase>, code: Seq<char>, key: Seq<char>, from: int, at: int)
    requires
        0 <= from <= at <= all.len(),
        forall|j: int|
            from <= j < at ==> !((#[trigger] all[j]).code@ == code && all[j].key@ == key),
        at < all.len() ==> all[at].code@ == code && all[at].key@ == key,
    ensures
        at < all.len() ==> phrase(all, code, key, from) == Some(all[at].text@),
        at == all.len() ==> phrase(all, code, key, from) is None,
    decreases at - from,
{
    if from < at {
        assert(!(all[from].code@ == code && all[from].key@ == key));
        lemma_phrase(all, code, key, from + 1, at);
    }
}

/// A phrase is told in the language that is asked for, else in English, else not at all.
pub proof fn law_phrases_fall_back(
    all: Seq<Phrase>,
    locale: Locale,
    key: Seq<char>,
    own: int,
    english: int,
)
    requires
        ({
            let code = if locale == Locale::En {
                "en"@
            } else {
                "la"@
            };
            &&& 0 <= own <= all.len()
            &&& forall|j: int|
                0 <= j < own ==> !((#[trigger] all[j]).code@ == code && all[j].key@ == key)
            &&& own < all.len() ==> all[own].code@ == code && all[own].key@ == key
        }),
        0 <= english <= all.len(),
        forall|j: int|
            0 <= j < english ==> !((#[trigger] all[j]).code@ == "en"@ && all[j].key@ == key),
        english < all.len() ==> all[english].code@ == "en"@ && all[english].key@ == key,
    ensures
        own < all.len() ==> translated(all, locale, key) == all[own].text@,
        own == all.len() && english < all.len() ==> translated(all, locale, key)
            == all[english].text@,
        own == all.len() && english == all.len() ==> translated(all, locale, key).len() == 0,
{
    reveal_strlit("");
    lemma_phrase(all, i18n::code_of(locale), key, 0, own);
    lemma_phrase(all, "en"@, key, 0, english);
}

// ---------------------------------------------------------------------------
// Dates
// ---------------------------------------------------------------------------

/// Whether a text is a word: not empty, and without white space.
pub open spec fn is_word(w: Seq<char>) -> bool {
    w.len() > 0 && forall|i: int| 0 <= i < w.len() ==> !unicode_whitespace(#[trigger] w[i])
}

proof fn lemma_words_shift(s: Seq<char>, n: int, i: int)
    requires
        0 <= n,
        0 <= i,
        n + i <= s.len(),
    ensures
        words_from(s, n + i) == words_from(s.skip(n), i),
    decreases s.len() - n - i,
{
    let t = s.skip(n);
    lemma_space_shift(s, n, i);
    let b = space_end(t, i);
    text::lemma_space_end(t, i);
    lemma_word_shift(s, n, b);
    let e = word_end(t, b);
    text::lemma_word_end(t, b);
    if i <= b && b < e && e <= t.len() {
        assert(s.subrange(n + b, n + e) =~= t.subrange(b, e));
        lemma_words_shift(s, n, e);
    }
}

proof fn lemma_space_shift(s: Seq<char>, n: int, i: int)
    requires
        0 <= n <= s.len(),
        0 <= i,
    ensures
        space_end(s, n + i) == n + space_end(s.skip(n), i),
    decreases s.len() - n - i,
{
    let t = s.skip(n);
    if n + i < s.len() {
        assert(t[i] == s[n + i]);
        if unicode_whitespace(t[i]) {
            lemma_space_shift(s, n, i + 1);
        }
    }
}

proof fn lemma_word_shift(s: Seq<char>, n: int, i: int)
    requires
        0 <= n <= s.len(),
        0 <= i,
    ensures
        word_end(s, n + i) == n + word_end(s.skip(n), i),
    decreases s.len() - n - i,
{
    let t = s.skip(n);
    if n + i < s.len() {
        assert(t[i] == s[n + i]);
        if !unicode_whitespace(t[i]) {
            lemma_word_shift(s, n, i + 1);
        }
    }
}

proof fn lemma_word_ends(w: Seq<char>, t: Seq<char>, i: int)
    requires
        is_word(w),
        0 <= i <= w.len(),
        t.len() > 0 ==> unicode_whitespace(t[0]),
    ensures
        word_end(w + t, i) == w.len(),
    decreases w.len() - i,
{
    let s = w + t;
    if i < w.len() {
        assert(s[i] == w[i]);
        lemma_word_ends(w, t, i + 1);
    } else if t.len() > 0 {
        assert(s[i] == t[0]);
    }
}

proof fn lemma_next_word(w: Seq<char>, t: Seq<char>)
    requires
        is_word(w),
        unicode_whitespace(' '),
    ensures
        words_from(w + seq![' '] + t, 0) == seq![w] + words_from(t, 0),
        words_from(w, 0) == seq![w],
{
    let tail = seq![' '] + t;
    let s = w + tail;
    assert(s =~= w + seq![' '] + t);
    assert(s[0] == w[0]);
    assert(space_end(s, 0) == 0);
    lemma_word_ends(w, tail, 0);
    assert(s.subrange(0, w.len() as int) =~= w);
    lemma_words_shift(s, w.len() as int, 0);
    assert(s.skip(w.len() as int) =~= tail);
    assert(tail[0] == ' ');
    assert(space_end(tail, 0) == space_end(tail, 1));
    text::lemma_space_end(tail, 1);
    assert(words_from(tail, 0) == words_from(tail, 1));
    lemma_words_shift(tail, 1, 0);
    assert(tail.skip(1) =~= t);
    let none = Seq::<char>::empty();
    assert(w + none =~= w);
    lemma_word_ends(w, none, 0);
    assert(w.subrange(0, w.len() as int) =~= w);
    assert(space_end(w, 0) == 0);
    assert(words_from(w, w.len() as int) =~= Seq::<Seq<char>>::empty());
    assert(words_from(w, 0) =~= seq![w]);
}

/// A date is read from its words: the day of the week does not matter, then come the day, the
/// month by its name, the year and the time of the day.
pub proof fn law_dates_are_read(
    weekday: Seq<char>,
    day: Seq<char>,
    month: Seq<char>,
    year: Seq<char>,
    hour: Seq<char>,
    minute: Seq<char>,
    second: Seq<char>,
    zone: Seq<char>,
    d: HttpDate,
)
    requires
        unicode_whitespace(' '),
        is_word(weekday),
        is_word(day),
        is_word(month),
        is_word(year),
        is_word(hour + seq![':'] + (minute + seq![':'] + second)),
        lacks(hour, ':'),
        lacks(minute, ':'),
        lacks(second, ':'),
        parsed_u64(day) == Some(d.day),
        month_number(month) == Some(d.month),
        parsed_u64(year) == Some(d.year),
        parsed_u64(hour) == Some(d.hour),
        parsed_u64(minute) == Some(d.minute),
        parsed_u64(second) == Some(d.second),
    ensures
        date_of(
            weekday + seq![' '] + (day + seq![' '] + (month + seq![' '] + (year + seq![' '] + (hour
                + seq![':'] + (minute + seq![':'] + second) + seq![' '] + zone)))),
        ) == Some(d),
{
    let time = hour + seq![':'] + (minute + seq![':'] + second);
    let t4 = time + seq![' '] + zone;
    let t3 = year + seq![' '] + t4;
    let t2 = month + seq![' '] + t3;
    let t1 = day + seq![' '] + t2;
    lemma_next_word(time, zone);
    lemma_next_word(year, t4);
    lemma_next_word(month, t3);
    lemma_next_word(day, t2);
    lemma_next_word(weekday, t1);
    let s = weekday + seq![' '] + t1;
    let rest = words_from(zone, 0);
    assert(words_from(s, 0) =~= seq![weekday, day, month, year, time] + rest);
    lemma_cut(hour, ':', minute + seq![':'] + second);
    lemma_cut(minute, ':', second);
    lemma_uncut(second, ':');
    assert(split_on(time, ':') =~= seq![hour, minute, second]);
    let w = words_from(s, 0);
    assert(w[1] == day && w[2] == month && w[3] == year && w[4] == time);
}

/// The months by their names.
pub proof fn law_months_have_names(name: Seq<char>)
    ensures
        month_number("Jan"@) == Some(1u64),
        month_number("Feb"@) == Some(2u64),
        month_number("Mar"@) == Some(3u64),
        month_number("Apr"@) == Some(4u64),
        month_number("May"@) == Some(5u64),
        month_number("Jun"@) == Some(6u64),
        month_number("Jul"@) == Some(7u64),
        month_number("Aug"@) == Some(8u64),
        month_number("Sep"@) == Some(9u64),
        month_number("Oct"@) == Some(10u64),
        month_number("Nov"@) == Some(11u64),
        month_number("Dec"@) == Some(12u64),
        month_number(name) matches Some(n) ==> 1 <= n <= 12,
{
    reveal_strlit("Jan");
    reveal_strlit("Feb");
    reveal_strlit("Mar");
    reveal_strlit("Apr");
    reveal_strlit("May");
    reveal_strlit("Jun");
    reveal_strlit("Jul");
    reveal_strlit("Aug");
    reveal_strlit("Sep");
    reveal_strlit("Oct");
    reveal_strlit("Nov");
    reveal_strlit("Dec");
    assert("Jan"@[1] == 'a' && "Feb"@[0] == 'F' && "Mar"@[0] == 'M' && "Apr"@[1] == 'p' && "May"@[0]
        == 'M' && "Jun"@[1] == 'u' && "Jul"@[1] == 'u' && "Aug"@[1] == 'u' && "Sep"@[0] == 'S'
        && "Oct"@[0] == 'O' && "Nov"@[0] == 'N' && "Dec"@[0] == 'D');
    assert("Jan"@[0] == 'J' && "Jun"@[0] == 'J' && "Jul"@[0] == 'J' && "Apr"@[0] == 'A' && "Aug"@[0]
        == 'A');
    assert("Mar"@[2] == 'r' && "May"@[2] == 'y' && "Jun"@[2] == 'n' && "Jul"@[2] == 'l');
}

/// Time is counted from the beginning of 1970, in seconds, minutes and hours of the day.
pub proof fn law_time_begins_in_1970(d: HttpDate)
    requires
        d.year == 1970,
        d.month == 1,
    ensures
        seconds_since_1970(d) == (((d.day - 1) * 24 + d.hour) * 60 + d.minute) * 60 + d.second,
{
    reveal_with_fuel(crate::time::days_before_year, 2);
    reveal_with_fuel(crate::time::days_before_month, 2);
}

/// A style sheet is named by the digest of its text, without the white space at its end.
pub proof fn law_style_sheets_are_named(css: Seq<char>, tail: Seq<char>)
    requires
        css.len() > 0,
        !unicode_whitespace(css.last()),
        blank(tail),
    ensures
        style_hash(css + tail) == "'sha512-"@ + base64_of(sha512_of(encode_utf8(css))) + "'"@,
        style_hash(css) == style_hash(css + tail),
{
    let none = Seq::<char>::empty();
    lemma_trimmed_end(css, tail);
    lemma_trimmed_end(css, none);
    assert(css + none =~= css);
}

} // verus!
