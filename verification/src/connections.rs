//! How the server is reached: over plain and secured transport, and as an onion service.

use vstd::prelude::*;

use crate::http::answer_headers;
use crate::primitives::base16_encode;
use crate::primitives::hex_of;
use crate::text;
use crate::text::has_prefix;
use crate::text::has_text;
use crate::text::split_on;

verus! {

/// Where a request over plain transport is sent instead.
pub open spec fn https_address(host: Option<Seq<char>>, port: Seq<char>, path: Seq<char>) -> Seq<char> {
    let named = match host {
        Some(h) => h,
        None => "localhost"@,
    };
    "https://"@ + split_on(named, ':')[0] + ":"@ + port + path
}

/// Where a request over plain transport is sent instead: to the same host and path.
pub fn https_target(host: Option<&str>, development: bool, path: &str) -> (r: String)
    ensures
        r@ == https_address(
            match host {
                Some(h) => Some(h@),
                None => None,
            },
            if development {
                "5443"@
            } else {
                "443"@
            },
            path@,
        ),
{
    let named = match host {
        Some(h) => h,
        None => "localhost",
    };
    let parts = text::split(named, ':');
    proof {
        text::lemma_split_lengths(named@, ':');
        assert(text::views(parts@).len() == parts@.len());
        assert(text::views(parts@)[0] == parts@[0]@);
    }
    let port = if development {
        "5443"
    } else {
        "443"
    };
    text::cat5("https://", parts[0].as_str(), ":", port, path)
}

/// The ports that the onion service answers on.
pub open spec fn onion_port_of(request: Seq<char>) -> Option<u16> {
    if has_text(request, "port: 443"@) {
        Some(443)
    } else if has_text(request, "port: 80"@) {
        Some(80)
    } else {
        None
    }
}

/// The port that a description of a stream request names, if the onion service answers on it.
pub fn onion_port(request: &str) -> (r: Option<u16>)
    ensures
        r == onion_port_of(request@),
{
    if text::contains(request, "port: 443") {
        Some(443)
    } else if text::contains(request, "port: 80") {
        Some(80)
    } else {
        None
    }
}

/// What becomes of a request over the onion service's plain port.
pub enum PlainOnion {
    /// It is answered.
    Serve,
    /// It is sent to this address instead.
    Redirect(String),
}

/// Where a request over the onion service's plain port is sent instead, if it is not answered:
/// only programs may ask without TLS, since the onion route itself is encrypted.
pub open spec fn plain_redirect(
    domain: Seq<char>,
    path: Seq<char>,
    path_and_query: Option<Seq<char>>,
) -> Option<Seq<char>> {
    if has_prefix(path, "/v1"@) {
        None
    } else {
        Some(
            "https://"@ + domain + (match path_and_query {
                Some(pq) => pq,
                None => "/"@,
            }),
        )
    }
}

/// Decides what becomes of a request over the onion service's plain port.
pub fn plain_onion(domain: &str, path: &str, path_and_query: Option<&str>) -> (r: PlainOnion)
    ensures
        plain_redirect(
            domain@,
            path@,
            match path_and_query {
                Some(pq) => Some(pq@),
                None => None,
            },
        ) == (match r {
            PlainOnion::Serve => None,
            PlainOnion::Redirect(url) => Some(url@),
        }),
{
    if text::starts_with(path, "/v1") {
        return PlainOnion::Serve;
    }
    let target = match path_and_query {
        Some(pq) => pq,
        None => "/",
    };
    PlainOnion::Redirect(text::cat3("https://", domain, target))
}

/// The way on which a request came over the onion service, as it is shown.
pub fn onion_protocol(http2: bool, plain: bool) -> (r: &'static str)
    ensures
        r@ == (if plain {
            if http2 {
                "Tor Onion (HTTP/2) [Plaintext]"@
            } else {
                "Tor Onion (HTTP/1.1) [Plaintext]"@
            }
        } else {
            if http2 {
                "Tor Onion (HTTP/2)"@
            } else {
                "Tor Onion (HTTP/1.1)"@
            }
        }),
{
    if plain {
        if http2 {
            "Tor Onion (HTTP/2) [Plaintext]"
        } else {
            "Tor Onion (HTTP/1.1) [Plaintext]"
        }
    } else {
        if http2 {
            "Tor Onion (HTTP/2)"
        } else {
            "Tor Onion (HTTP/1.1)"
        }
    }
}

/// The name under which an onion service is launched, from bytes that were drawn for it.
pub fn onion_nickname(bytes: &[u8; 16]) -> (r: String)
    ensures
        r@ == hex_of(bytes@),
{
    base16_encode(bytes)
}

/// The headers of an answer over TLS: a client is to come back over TLS only.
pub fn with_transport_security(headers: Vec<(&'static str, String)>) -> (r: Vec<
    (&'static str, String),
>)
    ensures
        answer_headers(r@) == seq![
            ("Strict-Transport-Security"@, "max-age=63072000; includeSubDomains"@),
        ] + answer_headers(headers@),
{
    let mut out: Vec<(&'static str, String)> = Vec::new();
    out.push((
        "Strict-Transport-Security",
        "max-age=63072000; includeSubDomains".to_string(),
    ));
    let ghost first = answer_headers(out@);
    proof {
        assert(first =~= seq![
            ("Strict-Transport-Security"@, "max-age=63072000; includeSubDomains"@),
        ]);
    }
    let mut i: usize = 0;
    while i < headers.len()
        invariant
            i <= headers@.len(),
            answer_headers(out@) == first + answer_headers(headers@).take(i as int),
        decreases headers@.len() - i,
    {
        let ghost before = answer_headers(out@);
        out.push((headers[i].0, headers[i].1.clone()));
        proof {
            assert(answer_headers(out@) =~= before.push(answer_headers(headers@)[i as int]));
        }
        i = i + 1;
    }
    proof {
        assert(answer_headers(headers@).take(headers@.len() as int) =~= answer_headers(headers@));
    }
    out
}

/// The ports of TLS and of plain transport.
pub fn ports(development: bool) -> (r: (u16, u16))
    ensures
        r == (if development {
            (5443u16, 5001u16)
        } else {
            (443u16, 80u16)
        }),
{
    if development {
        (5443, 5001)
    } else {
        (443, 80)
    }
}

} // verus!
