//! Over HTTP: headers, errors of other servers, and lines of a stream that are passed on.

use vstd::prelude::*;
use vstd::utf8::encode_utf8;

use crate::primitives::base64_encode;
use crate::primitives::base64_of;
use crate::primitives::sha512;
use crate::primitives::sha512_of;
use crate::redaction::char_index;
use crate::redaction::index_of_byte;
use crate::table;
use crate::table::entries;
use crate::table::with_entry;
use crate::text;
use crate::text::chars_of;
use crate::text::replaced;
use crate::text::string_of;
use crate::text::trimmed_end;
use crate::text::unicode_lowercase;
use crate::timing::Line;
use crate::timing::LineKind;

verus! {

// ---------------------------------------------------------------------------
// Headers
// ---------------------------------------------------------------------------

/// Some headers as they are looked up: names in lower case, a later value in the place of an
/// earlier one, and values that are no text left out.
pub open spec fn header_table(headers: Seq<(Seq<char>, Option<Seq<char>>)>) -> Seq<
    (Seq<char>, Seq<char>),
>
    decreases headers.len(),
{
    if headers.len() == 0 {
        seq![]
    } else {
        let before = header_table(headers.drop_last());
        match headers.last().1 {
            Some(v) => with_entry(before, unicode_lowercase(headers.last().0), v),
            None => before,
        }
    }
}

/// What some headers say.
pub open spec fn headers_said(v: Seq<(String, Option<String>)>) -> Seq<
    (Seq<char>, Option<Seq<char>>),
> {
    v.map_values(
        |h: (String, Option<String>)|
            (
                h.0@,
                match h.1 {
                    Some(s) => Some(s@),
                    None => None,
                },
            ),
    )
}

/// Puts headers into a table. A header whose value is no text comes without one.
pub fn headers_to_map(headers: &Vec<(String, Option<String>)>) -> (r: Vec<(String, String)>)
    ensures
        entries(r@) == header_table(headers_said(headers@)),
{
    let ghost all = headers_said(headers@);
    let mut out: Vec<(String, String)> = Vec::new();
    let mut i: usize = 0;
    proof {
        assert(all.take(0) =~= seq![]);
        assert(entries(out@) =~= seq![]);
    }
    while i < headers.len()
        invariant
            i <= headers@.len(),
            all == headers_said(headers@),
            entries(out@) == header_table(all.take(i as int)),
        decreases headers@.len() - i,
    {
        proof {
            assert(all.take(i + 1).drop_last() =~= all.take(i as int));
            assert(all.take(i + 1).last() == all[i as int]);
        }
        if let Some(v) = &headers[i].1 {
            let name = headers[i].0.as_str().to_lowercase();
            table::insert(&mut out, name.as_str(), v.clone());
        }
        i = i + 1;
    }
    proof {
        assert(all.take(all.len() as int) =~= all);
    }
    out
}

/// The digest of a text, as a content security policy names it.
pub open spec fn policy_hash(data: Seq<char>) -> Seq<char> {
    "'sha512-"@ + base64_of(sha512_of(encode_utf8(data))) + "'"@
}

/// The digest of a text, as a content security policy names it.
pub fn compute_sha512_b64(data: &str) -> (r: String)
    ensures
        r@ == policy_hash(data@),
{
    let digest = sha512(data.as_bytes());
    proof {
        assert(digest@.len() == 64);
    }
    let b64 = base64_encode(digest.as_slice());
    text::cat3("'sha512-", b64.as_str(), "'")
}

/// The digest of a style sheet as a page holds it, without the white space at its end.
pub open spec fn style_hash(css: Seq<char>) -> Seq<char> {
    policy_hash(trimmed_end(css))
}

/// The digest of a style sheet as a page holds it, without the white space at its end.
pub fn get_style_hash(css: &str) -> (r: String)
    ensures
        r@ == style_hash(css@),
{
    let shown = text::trim_end(css);
    compute_sha512_b64(shown.as_str())
}

/// What a page may load: nothing but its own styles, images and fonts.
pub open spec fn page_policy(style_hash: Seq<char>) -> Seq<char> {
    "default-src 'none'; script-src 'none'; style-src "@ + style_hash
        + "; form-action 'self'; base-uri 'none'; frame-ancestors 'none'; img-src 'self'; font-src 'self'; upgrade-insecure-requests;"@
}

/// The headers of every page.
pub open spec fn page_headers(style_hash: Seq<char>) -> Seq<(Seq<char>, Seq<char>)> {
    seq![
        ("Content-Security-Policy"@, page_policy(style_hash)),
        ("X-Frame-Options"@, "DENY"@),
        ("X-Content-Type-Options"@, "nosniff"@),
        ("Referrer-Policy"@, "no-referrer"@),
        ("Content-Type"@, "text/html; charset=utf-8"@),
    ]
}

/// What some headers of an answer say.
pub open spec fn answer_headers(v: Seq<(&'static str, String)>) -> Seq<(Seq<char>, Seq<char>)> {
    v.map_values(|h: (&'static str, String)| (h.0@, h.1@))
}

/// The headers of every page.
pub fn get_security_headers(style_hash: &str) -> (r: Vec<(&'static str, String)>)
    ensures
        answer_headers(r@) == page_headers(style_hash@),
{
    let policy = text::cat3(
        "default-src 'none'; script-src 'none'; style-src ",
        style_hash,
        "; form-action 'self'; base-uri 'none'; frame-ancestors 'none'; img-src 'self'; font-src 'self'; upgrade-insecure-requests;",
    );
    let mut out: Vec<(&'static str, String)> = Vec::new();
    out.push(("Content-Security-Policy", policy));
    out.push(("X-Frame-Options", "DENY".to_string()));
    out.push(("X-Content-Type-Options", "nosniff".to_string()));
    out.push(("Referrer-Policy", "no-referrer".to_string()));
    out.push(("Content-Type", "text/html; charset=utf-8".to_string()));
    proof {
        assert(answer_headers(out@) =~= page_headers(style_hash@));
    }
    out
}

// ---------------------------------------------------------------------------
// Errors of other servers
// ---------------------------------------------------------------------------

/// Whether a text can be cut after a number of bytes.
pub open spec fn can_cut(s: Seq<char>, bytes: int) -> bool {
    encode_utf8(s.take(char_index(s, bytes))).len() == bytes
}

/// A text of at most 150 bytes stays as it is; a longer one is cut after 147, with dots.
pub open spec fn shortened(s: Seq<char>) -> Seq<char> {
    if encode_utf8(s).len() > 150 {
        s.take(char_index(s, 147)) + "..."@
    } else {
        s
    }
}

/// What is said of an error of another server, on one line.
pub open spec fn upstream_error(
    status: Seq<char>,
    retry_after: Option<Seq<char>>,
    body: Seq<char>,
) -> Seq<char> {
    let retry = match retry_after {
        Some(r) => if r.len() > 0 {
            " [Retry-After: "@ + r + "]"@
        } else {
            ""@
        },
        None => ""@,
    };
    let line = replaced(replaced(shortened(body), "\r"@, ""@), "\n"@, " "@);
    "Upstream error: "@ + status + retry + " - "@ + line
}

/// Describes an error of another server, on one line. `status` is the status as it is shown.
pub fn format_upstream_error(status: &str, retry_after: Option<&str>, body_text: &str) -> (r: String)
    requires
        encode_utf8(body_text@).len() > 150 ==> can_cut(body_text@, 147),
    ensures
        r@ == upstream_error(
            status@,
            match retry_after {
                Some(s) => Some(s@),
                None => None,
            },
            body_text@,
        ),
{
    let retry = match retry_after {
        Some(s) => {
            if s.is_empty() {
                "".to_string()
            } else {
                text::cat3(" [Retry-After: ", s, "]")
            }
        },
        None => "".to_string(),
    };
    let short = if body_text.as_bytes().len() > 150 {
        let v = chars_of(body_text);
        let n = index_of_byte(v.as_slice(), 147);
        let start = string_of(v.as_slice(), 0, n);
        proof {
            assert(start@ =~= body_text@.take(n as int));
        }
        text::cat2(start.as_str(), "...")
    } else {
        body_text.to_string()
    };
    proof {
        reveal_strlit("\r");
        reveal_strlit("\n");
    }
    let no_returns = text::replace(short.as_str(), "\r", "");
    let line = text::replace(no_returns.as_str(), "\n", " ");
    text::cat5("Upstream error: ", status, retry.as_str(), " - ", line.as_str())
}

// ---------------------------------------------------------------------------
// Passing lines on
// ---------------------------------------------------------------------------

/// What is passed on of a line. `clean` is the content of a data line made fit, where it is
/// an event.
pub open spec fn relayed(line: LineKind, clean: Option<Seq<char>>) -> Option<Seq<char>> {
    match line {
        LineKind::Nothing => None,
        LineKind::Done => Some("data: [DONE]\n\n"@),
        LineKind::Data(c) => Some(
            "data: "@ + (match clean {
                Some(j) => j,
                None => c,
            }) + "\n\n"@,
        ),
        LineKind::Bare(t) => Some(t + "\n"@),
        LineKind::Other(t) => Some(t + "\n"@),
    }
}

/// Passes a line on.
pub fn relay_line(line: &Line, clean: &Option<String>) -> (r: Option<String>)
    ensures
        match r {
            Some(t) => relayed(
                line@,
                match *clean {
                    Some(j) => Some(j@),
                    None => None,
                },
            ) == Some(t@),
            None => relayed(
                line@,
                match *clean {
                    Some(j) => Some(j@),
                    None => None,
                },
            ) is None,
        },
{
    match line {
        Line::Nothing => None,
        Line::Done => Some("data: [DONE]\n\n".to_string()),
        Line::Data(c) => match clean {
            Some(j) => Some(text::cat3("data: ", j.as_str(), "\n\n")),
            None => Some(text::cat3("data: ", c.as_str(), "\n\n")),
        },
        Line::Bare(t) => Some(text::cat2(t.as_str(), "\n")),
        Line::Other(t) => Some(text::cat2(t.as_str(), "\n")),
    }
}

} // verus!
