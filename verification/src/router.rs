//! Where a request goes: by its method and its path.

use vstd::prelude::*;

use crate::http::can_cut;
use crate::http::get_style_hash;
use crate::http::style_hash;
use crate::i18n::locale_of;
use crate::i18n::Locale;
use crate::redaction::char_index;
use crate::redaction::index_of_byte;
use crate::text;
use crate::text::chars_of;
use crate::text::has_prefix;
use crate::text::has_suffix;
use crate::text::has_text;
use crate::text::split_on;
use crate::text::string_of;
use crate::text::text_eq;
use crate::text::without_prefixes;

verus! {

/// The method of a request.
#[derive(Debug, Clone, Copy, PartialEq, Eq, Structural)]
pub enum Method {
    Get,
    Post,
    Options,
    Other,
}

/// Where a request goes.
pub enum Route {
    /// Tell that the server is well.
    Health,
    /// A font of a name.
    Font(String),
    /// A file of a name.
    StaticFile(String),
    /// A file that is not to be had.
    Forbidden,
    Favicon,
    /// Ask what may be asked.
    Preflight,
    ChatCompletions,
    ModelsList,
    EphemeralKeys,
    NearAiKey,
    /// Nothing, told without a page.
    Nothing,
    /// The same page without the default language's prefix.
    Redirect(String),
    Landing(Locale),
    Models(Locale),
    Providers(Locale),
    /// Nothing, told on a page.
    NotFound(Locale),
}

/// Where a request goes.
pub enum Destination {
    Health,
    Font(Seq<char>),
    StaticFile(Seq<char>),
    Forbidden,
    Favicon,
    Preflight,
    ChatCompletions,
    ModelsList,
    EphemeralKeys,
    NearAiKey,
    Nothing,
    Redirect(Seq<char>),
    Landing(Locale),
    Models(Locale),
    Providers(Locale),
    NotFound(Locale),
}

impl Route {
    /// Where it goes.
    pub open spec fn view(&self) -> Destination {
        match *self {
            Route::Health => Destination::Health,
            Route::Font(f) => Destination::Font(f@),
            Route::StaticFile(f) => Destination::StaticFile(f@),
            Route::Forbidden => Destination::Forbidden,
            Route::Favicon => Destination::Favicon,
            Route::Preflight => Destination::Preflight,
            Route::ChatCompletions => Destination::ChatCompletions,
            Route::ModelsList => Destination::ModelsList,
            Route::EphemeralKeys => Destination::EphemeralKeys,
            Route::NearAiKey => Destination::NearAiKey,
            Route::Nothing => Destination::Nothing,
            Route::Redirect(l) => Destination::Redirect(l@),
            Route::Landing(l) => Destination::Landing(l),
            Route::Models(l) => Destination::Models(l),
            Route::Providers(l) => Destination::Providers(l),
            Route::NotFound(l) => Destination::NotFound(l),
        }
    }
}

// ---------------------------------------------------------------------------
// Files
// ---------------------------------------------------------------------------

/// Whether a name could lead out of the directory of files.
pub open spec fn leads_out(name: Seq<char>) -> bool {
    has_text(name, ".."@) || has_text(name, "/"@) || has_text(name, "\\"@)
}

fn may_lead_out(name: &str) -> (r: bool)
    ensures
        r == leads_out(name@),
{
    text::contains(name, "..") || text::contains(name, "/") || text::contains(name, "\\")
}

/// What stands behind the last dot of a name, or all of a name without one.
pub open spec fn extension_of(name: Seq<char>) -> Seq<char> {
    split_on(name, '.').last()
}

fn extension(name: &str) -> (r: String)
    ensures
        r@ == extension_of(name@),
{
    let parts = text::split(name, '.');
    proof {
        text::lemma_split_lengths(name@, '.');
        assert(text::views(parts@).len() == parts@.len());
        assert(text::views(parts@).last() == parts@[parts@.len() - 1]@);
    }
    let last: usize = parts.len() - 1;
    parts[last].clone()
}

/// The type of a font of a name.
pub open spec fn font_type(name: Seq<char>) -> Seq<char> {
    let e = extension_of(name);
    if e == "woff"@ {
        "font/woff"@
    } else if e == "woff2"@ {
        "font/woff2"@
    } else if e == "ttf"@ {
        "font/ttf"@
    } else if e == "otf"@ {
        "font/otf"@
    } else {
        "application/octet-stream"@
    }
}

/// The type of a font of a name.
pub fn font_mime(name: &str) -> (r: &'static str)
    ensures
        r@ == font_type(name@),
{
    let e = extension(name);
    if text_eq(e.as_str(), "woff") {
        "font/woff"
    } else if text_eq(e.as_str(), "woff2") {
        "font/woff2"
    } else if text_eq(e.as_str(), "ttf") {
        "font/ttf"
    } else if text_eq(e.as_str(), "otf") {
        "font/otf"
    } else {
        "application/octet-stream"
    }
}

/// The type of a file of a name.
pub open spec fn file_type(name: Seq<char>) -> Seq<char> {
    let e = extension_of(name);
    if e == "png"@ {
        "image/png"@
    } else if e == "jpg"@ || e == "jpeg"@ {
        "image/jpeg"@
    } else if e == "ico"@ {
        "image/x-icon"@
    } else if e == "svg"@ {
        "image/svg+xml"@
    } else if e == "webmanifest"@ {
        "application/manifest+json"@
    } else if e == "txt"@ {
        "text/plain; charset=utf-8"@
    } else if e == "css"@ {
        "text/css; charset=utf-8"@
    } else if e == "js"@ {
        "application/javascript; charset=utf-8"@
    } else {
        "application/octet-stream"@
    }
}

/// The type of a file of a name.
pub fn static_mime(name: &str) -> (r: &'static str)
    ensures
        r@ == file_type(name@),
{
    let e = extension(name);
    if text_eq(e.as_str(), "png") {
        "image/png"
    } else if text_eq(e.as_str(), "jpg") || text_eq(e.as_str(), "jpeg") {
        "image/jpeg"
    } else if text_eq(e.as_str(), "ico") {
        "image/x-icon"
    } else if text_eq(e.as_str(), "svg") {
        "image/svg+xml"
    } else if text_eq(e.as_str(), "webmanifest") {
        "application/manifest+json"
    } else if text_eq(e.as_str(), "txt") {
        "text/plain; charset=utf-8"
    } else if text_eq(e.as_str(), "css") {
        "text/css; charset=utf-8"
    } else if text_eq(e.as_str(), "js") {
        "application/javascript; charset=utf-8"
    } else {
        "application/octet-stream"
    }
}

// ---------------------------------------------------------------------------
// Languages
// ---------------------------------------------------------------------------

/// Whether a path names a language, and something inside it.
pub open spec fn inside_language(path: Seq<char>) -> bool {
    let parts = split_on(path, '/');
    &&& parts.len() > 2
    &&& parts[1] == "en"@ || parts[1] == "la"@
    &&& parts.len() > 3 || parts[2].len() > 0
}

/// Whether a path that names a language can be cut behind it. One that starts with a slash
/// can, as can one that names no language.
pub open spec fn is_request_path(path: Seq<char>) -> bool {
    ||| path.len() > 0 && path[0] == '/'
    ||| inside_language(path) ==> can_cut(path, 3)
}

/// The code of the language of a path, and the path inside the language: what follows the
/// first three bytes.
pub open spec fn locale_and_path(path: Seq<char>) -> (Seq<char>, Seq<char>) {
    let parts = split_on(path, '/');
    if parts.len() > 1 && (parts[1] == "en"@ || parts[1] == "la"@) {
        (
            parts[1],
            if parts.len() == 2 || (parts.len() == 3 && parts[2].len() == 0) {
                "/"@
            } else {
                path.skip(char_index(path, 3))
            },
        )
    } else {
        ("la"@, path)
    }
}

/// A path that starts with a slash and then names a language goes on behind three characters.
pub proof fn law_language_takes_three_characters(path: Seq<char>)
    requires
        path.len() > 0,
        path[0] == '/',
        inside_language(path),
    ensures
        locale_and_path(path) == (split_on(path, '/')[1], path.skip(3)),
{
    reveal_strlit("en");
    reveal_strlit("la");
    let rest = path.skip(1);
    assert(split_on(path, '/') == seq![path.take(0)] + split_on(rest, '/'));
    text::lemma_find_char(rest, '/', 0);
    assert(split_on(path, '/')[1] == split_on(rest, '/')[0]);
    assert(rest.take(2) =~= split_on(path, '/')[1]);
    assert(path[1] == rest.take(2)[0] && path[2] == rest.take(2)[1]);
    reveal_with_fuel(char_index, 4);
    assert(rest.skip(1)[0] == path[2]);
    assert(char_index(path, 3) == 3);
}

/// Splits a path into the code of its language and the path inside the language.
pub fn parse_locale_and_path(path: &str) -> (r: (&'static str, String))
    requires
        is_request_path(path@),
    ensures
        (r.0@, r.1@) == locale_and_path(path@),
{
    let parts = text::split(path, '/');
    let ghost views = text::views(parts@);
    proof {
        assert(views.len() == parts@.len());
    }
    if parts.len() > 1 {
        proof {
            assert(views[1] == parts@[1]@);
        }
        let english = text_eq(parts[1].as_str(), "en");
        let latin = text_eq(parts[1].as_str(), "la");
        if english || latin {
            let code = if english {
                "en"
            } else {
                "la"
            };
            let bare = if parts.len() == 2 {
                true
            } else if parts.len() == 3 {
                proof {
                    assert(views[2] == parts@[2]@);
                }
                parts[2].as_str().is_empty()
            } else {
                false
            };
            if bare {
                return (code, "/".to_string());
            }
            let v = chars_of(path);
            let from = index_of_byte(v.as_slice(), 3);
            let len: usize = v.len();
            proof {
                assert(path@.subrange(from as int, len as int) =~= path@.skip(from as int));
            }
            return (code, string_of(v.as_slice(), from, len));
        }
    }
    ("la", path.to_string())
}

// ---------------------------------------------------------------------------
// Routes
// ---------------------------------------------------------------------------

/// Whether a request is for the machine rather than for a page.
pub open spec fn is_service(method: Method, path: Seq<char>) -> bool {
    path == "/health"@ || has_prefix(path, "/fonts/"@) || has_prefix(path, "/static/"@) || path
        == "/favicon.ico"@ || has_prefix(path, "/v1/"@) || method == Method::Options
}

/// Where a file of a name is had, if it may be.
pub open spec fn file_or_forbidden(name: Seq<char>, font: bool) -> Destination {
    if leads_out(name) {
        Destination::Forbidden
    } else if font {
        Destination::Font(name)
    } else {
        Destination::StaticFile(name)
    }
}

/// Where a request for the machine goes.
pub open spec fn service_of(method: Method, path: Seq<char>) -> Destination {
    if method == Method::Options {
        Destination::Preflight
    } else if method == Method::Get && path == "/health"@ {
        Destination::Health
    } else if method == Method::Get && has_prefix(path, "/fonts/"@) {
        file_or_forbidden(without_prefixes(path, "/fonts/"@), true)
    } else if method == Method::Get && has_prefix(path, "/static/"@) {
        file_or_forbidden(without_prefixes(path, "/static/"@), false)
    } else if method == Method::Get && path == "/favicon.ico"@ {
        Destination::Favicon
    } else if method == Method::Post && path == "/v1/chat/completions"@ {
        Destination::ChatCompletions
    } else if method == Method::Get && path == "/v1/models"@ {
        Destination::ModelsList
    } else if (method == Method::Get || method == Method::Post) && path == "/v1/keys/ephemeral"@ {
        Destination::EphemeralKeys
    } else if method == Method::Get && has_prefix(path, "/v1/models/nearai/"@) && has_suffix(
        path,
        "/key"@,
    ) {
        Destination::NearAiKey
    } else {
        Destination::Nothing
    }
}

/// Where a request for a page goes. Latin, the default language, has no prefix of its own.
pub open spec fn page_of(method: Method, path: Seq<char>, query: Option<Seq<char>>) -> Destination {
    let (code, inner) = locale_and_path(path);
    if path == "/la"@ || has_prefix(path, "/la/"@) {
        Destination::Redirect(
            match query {
                Some(q) => inner + "?"@ + q,
                None => inner,
            },
        )
    } else if method == Method::Get && inner == "/"@ {
        Destination::Landing(locale_of(code))
    } else if method == Method::Get && inner == "/models"@ {
        Destination::Models(locale_of(code))
    } else if method == Method::Get && inner == "/providers"@ {
        Destination::Providers(locale_of(code))
    } else {
        Destination::NotFound(locale_of(code))
    }
}

/// Where a request goes.
pub open spec fn destination_of(method: Method, path: Seq<char>, query: Option<Seq<char>>) -> Destination {
    if is_service(method, path) {
        service_of(method, path)
    } else {
        page_of(method, path, query)
    }
}

fn service_route(method: Method, path: &str) -> (r: Route)
    ensures
        r@ == service_of(method, path@),
{
    let get = method == Method::Get;
    if method == Method::Options {
        return Route::Preflight;
    }
    if get && text_eq(path, "/health") {
        return Route::Health;
    }
    if get && text::starts_with(path, "/fonts/") {
        proof {
            reveal_strlit("/fonts/");
        }
        let name = text::trim_start_matches(path, "/fonts/");
        if may_lead_out(name.as_str()) {
            return Route::Forbidden;
        }
        return Route::Font(name);
    }
    if get && text::starts_with(path, "/static/") {
        proof {
            reveal_strlit("/static/");
        }
        let name = text::trim_start_matches(path, "/static/");
        if may_lead_out(name.as_str()) {
            return Route::Forbidden;
        }
        return Route::StaticFile(name);
    }
    if get && text_eq(path, "/favicon.ico") {
        return Route::Favicon;
    }
    if method == Method::Post && text_eq(path, "/v1/chat/completions") {
        return Route::ChatCompletions;
    }
    if get && text_eq(path, "/v1/models") {
        return Route::ModelsList;
    }
    if (get || method == Method::Post) && text_eq(path, "/v1/keys/ephemeral") {
        return Route::EphemeralKeys;
    }
    if get && text::starts_with(path, "/v1/models/nearai/") && text::ends_with(path, "/key") {
        return Route::NearAiKey;
    }
    Route::Nothing
}

fn page_route(method: Method, path: &str, query: Option<&str>) -> (r: Route)
    requires
        is_request_path(path@),
    ensures
        r@ == page_of(
            method,
            path@,
            match query {
                Some(q) => Some(q@),
                None => None,
            },
        ),
{
    let (code, inner) = parse_locale_and_path(path);
    if text_eq(path, "/la") || text::starts_with(path, "/la/") {
        return match query {
            Some(q) => Route::Redirect(text::cat3(inner.as_str(), "?", q)),
            None => Route::Redirect(inner),
        };
    }
    let locale = Locale::from_code(code);
    if method == Method::Get {
        if text_eq(inner.as_str(), "/") {
            return Route::Landing(locale);
        }
        if text_eq(inner.as_str(), "/models") {
            return Route::Models(locale);
        }
        if text_eq(inner.as_str(), "/providers") {
            return Route::Providers(locale);
        }
    }
    Route::NotFound(locale)
}

/// Decides where a request goes.
pub fn route(method: Method, path: &str, query: Option<&str>) -> (r: Route)
    requires
        is_request_path(path@),
    ensures
        r@ == destination_of(
            method,
            path@,
            match query {
                Some(q) => Some(q@),
                None => None,
            },
        ),
{
    if text_eq(path, "/health") || text::starts_with(path, "/fonts/") || text::starts_with(
        path,
        "/static/",
    ) || text_eq(path, "/favicon.ico") || text::starts_with(path, "/v1/") || method
        == Method::Options {
        service_route(method, path)
    } else {
        page_route(method, path, query)
    }
}

/// No file is served that lies outside the directory of files: the name of one that is served
/// has no slash of either kind and no two dots in a row.
pub proof fn law_served_files_stay_inside(
    method: Method,
    path: Seq<char>,
    query: Option<Seq<char>>,
)
    ensures
        destination_of(method, path, query) matches Destination::Font(name) ==> !leads_out(name),
        destination_of(method, path, query) matches Destination::StaticFile(name) ==> !leads_out(
            name,
        ),
{
}

/// Only a post to the one path for it asks for a completion.
pub proof fn law_completions_have_one_way(method: Method, path: Seq<char>, query: Option<Seq<char>>)
    ensures
        destination_of(method, path, query) is ChatCompletions <==> method == Method::Post && path
            == "/v1/chat/completions"@,
{
    reveal_strlit("/v1/chat/completions");
    reveal_strlit("/v1/");
    reveal_strlit("/health");
    reveal_strlit("/fonts/");
    reveal_strlit("/static/");
    reveal_strlit("/favicon.ico");
    let p = "/v1/chat/completions"@;
    assert(p.take(4) =~= "/v1/"@);
    assert(p[1] != "/fonts/"@[1]);
    assert(p[1] != "/static/"@[1]);
    assert(p.len() != "/health"@.len());
}

/// The digest of the style sheet of the page that tells of nothing.
pub fn get_404_style_hash(css: &str) -> (r: String)
    ensures
        r@ == style_hash(css@),
{
    get_style_hash(css)
}

} // verus!
