//! Relaying requests that a client has encrypted to an enclave of Tinfoil: which headers go
//! along, what a failure means, and what becomes of the lines that come back.

use vstd::prelude::*;
use vstd::utf8::encode_utf8;

use crate::admission::refuse;
use crate::admission::Refusal;
use crate::admission::Refused;
use crate::health::held_back;
use crate::health::ProviderHealthState;
use crate::json::text_at;
use crate::json::Json;
use crate::json::JsonValue;
use crate::nearai_stream::unavailable;
use crate::nearai_stream::unavailable_value;
use crate::primitives::text_from_utf8_lossy;
use crate::primitives::utf8_lossy_of;
use crate::response::pad_raw_sse;
use crate::response::padded_line;
use crate::table;
use crate::table::entries;
use crate::table::entry_of;
use crate::text;
use crate::text::chars_of;
use crate::text::find_char;
use crate::text::has_prefix;
use crate::text::has_text;
use crate::text::lemma_find_char;
use crate::text::split_on;
use crate::text::string_of;
use crate::text::text_eq;
use crate::text::trimmed_end;
use crate::text::without_suffixes;

verus! {

// ---------------------------------------------------------------------------
// Whether to relay
// ---------------------------------------------------------------------------

/// Whether a provider with some health and some key can be asked, if it is there at all.
pub open spec fn readiness(provider: Option<(ProviderHealthState, Seq<char>)>, now: u64) -> Option<
    Refused,
> {
    match provider {
        None => Some(Refused { status: 500, message: "Tinfoil provider is not configured."@ }),
        Some((health, key)) => if held_back(health, now) {
            Some(
                Refused {
                    status: 503,
                    message: "Tinfoil provider is currently rate-limited or unhealthy."@,
                },
            )
        } else if key.len() == 0 {
            Some(Refused { status: 500, message: "Tinfoil API key is missing."@ })
        } else {
            None
        },
    }
}

/// Decides whether the provider can be asked.
pub fn check_ready(provider: Option<(ProviderHealthState, &str)>, now: u64) -> (r: Result<(), Refusal>)
    ensures
        ({
            let seen = match provider {
                Some((h, k)) => Some((h, k@)),
                None => None,
            };
            match r {
                Ok(_) => readiness(seen, now) is None,
                Err(e) => readiness(seen, now) == Some(e@),
            }
        }),
{
    let (health, key) = match provider {
        Some(p) => p,
        None => {
            return Err(refuse(500, "Tinfoil provider is not configured."));
        },
    };
    if health.is_rate_limited(now) {
        return Err(refuse(503, "Tinfoil provider is currently rate-limited or unhealthy."));
    }
    if key.is_empty() {
        return Err(refuse(500, "Tinfoil API key is missing."));
    }
    Ok(())
}

/// Whether a header belongs to the encryption between the client and the enclave.
pub open spec fn is_envelope(name: Seq<char>) -> bool {
    name == "ehbp-encapsulated-key"@ || name == "ehbp-response-nonce"@
}

/// Whether a header belongs to the encryption between the client and the enclave.
pub fn is_envelope_header(name: &str) -> (r: bool)
    ensures
        r == is_envelope(name@),
{
    text_eq(name, "ehbp-encapsulated-key") || text_eq(name, "ehbp-response-nonce")
}

/// Those of some headers that belong to the encryption.
pub open spec fn envelopes(v: Seq<(Seq<char>, Seq<char>)>) -> Seq<(Seq<char>, Seq<char>)>
    decreases v.len(),
{
    if v.len() == 0 {
        seq![]
    } else {
        let before = envelopes(v.drop_last());
        if is_envelope(v.last().0) {
            before.push(v.last())
        } else {
            before
        }
    }
}

/// The headers that go along: the type of what is sent, what the client takes, and those of
/// the encryption. No other header of the client does.
pub open spec fn headers_along(headers: Seq<(Seq<char>, Seq<char>)>) -> Seq<(Seq<char>, Seq<char>)> {
    let kind = (
        "Content-Type"@,
        match entry_of(headers, "content-type"@) {
            Some(t) => t,
            None => "application/json"@,
        },
    );
    let start = match entry_of(headers, "accept"@) {
        Some(a) => seq![kind, ("Accept"@, a)],
        None => seq![kind],
    };
    start + envelopes(headers)
}

/// Those of some headers that belong to the encryption.
pub fn envelope_headers(headers: &Vec<(String, String)>) -> (r: Vec<(String, String)>)
    ensures
        entries(r@) == envelopes(entries(headers@)),
{
    let ghost all = entries(headers@);
    let mut out: Vec<(String, String)> = Vec::new();
    let mut i: usize = 0;
    proof {
        assert(all.take(0) =~= seq![]);
        assert(entries(out@) =~= seq![]);
    }
    while i < headers.len()
        invariant
            i <= headers@.len(),
            all == entries(headers@),
            entries(out@) == envelopes(all.take(i as int)),
        decreases headers@.len() - i,
    {
        let ghost before = entries(out@);
        proof {
            assert(all.take(i + 1).drop_last() =~= all.take(i as int));
            assert(all.take(i + 1).last() == (headers@[i as int].0@, headers@[i as int].1@));
        }
        if is_envelope_header(headers[i].0.as_str()) {
            out.push((headers[i].0.clone(), headers[i].1.clone()));
            proof {
                assert(entries(out@) =~= before.push(all[i as int]));
            }
        }
        i = i + 1;
    }
    proof {
        assert(all.take(all.len() as int) =~= all);
    }
    out
}

/// Chooses the headers that go along.
pub fn forwarded_headers(headers: &Vec<(String, String)>) -> (r: Vec<(String, String)>)
    ensures
        entries(r@) == headers_along(entries(headers@)),
{
    let kind = match table::lookup(headers, "content-type") {
        Some(t) => t.clone(),
        None => "application/json".to_string(),
    };
    let mut out: Vec<(String, String)> = Vec::new();
    out.push(("Content-Type".to_string(), kind));
    if let Some(a) = table::lookup(headers, "accept") {
        out.push(("Accept".to_string(), a.clone()));
    }
    let ghost start = entries(out@);
    let more = envelope_headers(headers);
    let mut i: usize = 0;
    proof {
        assert(start + entries(more@).take(0) =~= start);
    }
    while i < more.len()
        invariant
            i <= more@.len(),
            entries(out@) == start + entries(more@).take(i as int),
        decreases more@.len() - i,
    {
        let ghost before = entries(out@);
        out.push((more[i].0.clone(), more[i].1.clone()));
        proof {
            assert(entries(out@) =~= before.push(entries(more@)[i as int]));
            assert(start + entries(more@).take(i + 1) =~= (start + entries(more@).take(
                i as int,
            )).push(entries(more@)[i as int]));
        }
        i = i + 1;
    }
    proof {
        assert(entries(more@).take(more@.len() as int) =~= entries(more@));
        assert(start =~= (match entry_of(entries(headers@), "accept"@) {
            Some(a) => seq![("Content-Type"@, kind@), ("Accept"@, a)],
            None => seq![("Content-Type"@, kind@)],
        }));
    }
    out
}

proof fn lemma_envelopes(v: Seq<(Seq<char>, Seq<char>)>, k: int)
    requires
        0 <= k < envelopes(v).len(),
    ensures
        is_envelope(envelopes(v)[k].0),
    decreases v.len(),
{
    if v.len() > 0 {
        let before = envelopes(v.drop_last());
        if k < before.len() {
            lemma_envelopes(v.drop_last(), k);
        }
    }
}

/// Nothing of a client goes along but the type of what it sends, what it takes, and what the
/// encryption needs.
pub proof fn law_nothing_else_goes_along(headers: Seq<(Seq<char>, Seq<char>)>, k: int)
    requires
        0 <= k < headers_along(headers).len(),
    ensures
        ({
            let name = headers_along(headers)[k].0;
            name == "Content-Type"@ || name == "Accept"@ || is_envelope(name)
        }),
{
    let start = headers_along(headers).len() - envelopes(headers).len();
    if k >= start {
        lemma_envelopes(headers, k - start);
    }
}

/// What a client is told of a relay that failed.
pub fn relay_failure(error: &str) -> (r: Refusal)
    ensures
        r@ == (Refused { status: 502, message: "Upstream Tinfoil error: "@ + error@ }),
{
    let message = text::cat2("Upstream Tinfoil error: ", error);
    refuse(502, message.as_str())
}

/// What a client is told of an answer that is an error.
pub fn relay_refusal(status: u16, body: &str) -> (r: Refusal)
    ensures
        r@ == (Refused { status, message: "Upstream Tinfoil returned error: "@ + body@ }),
{
    let message = text::cat2("Upstream Tinfoil returned error: ", body);
    refuse(status, message.as_str())
}

/// Whether an answer is a stream, by its type.
pub fn is_stream(content_type: &str) -> (r: bool)
    ensures
        r == has_prefix(content_type@, "text/event-stream"@),
{
    text::starts_with(content_type, "text/event-stream")
}

// ---------------------------------------------------------------------------
// Lines
// ---------------------------------------------------------------------------

/// What has come of a line that is not at its end.
pub struct LineBuffer {
    pub rest: String,
}

/// The complete lines of a text, without the returns at their ends.
pub open spec fn lines_in(s: Seq<char>) -> Seq<Seq<char>> {
    split_on(s, '\n').drop_last().map_values(|l: Seq<char>| without_suffixes(l, "\r"@))
}

/// What follows the last complete line of a text.
pub open spec fn rest_of(s: Seq<char>) -> Seq<char> {
    split_on(s, '\n').last()
}

impl LineBuffer {
    /// Nothing has come.
    pub fn new() -> (r: Self)
        ensures
            r.rest@ == ""@,
    {
        LineBuffer { rest: "".to_string() }
    }

    /// Takes in a text, and gives out the lines that are complete.
    pub fn push_text(&mut self, s: &str) -> (r: Vec<String>)
        ensures
            text::views(r@) == lines_in(old(self).rest@ + s@),
            final(self).rest@ == rest_of(old(self).rest@ + s@),
    {
        let all = text::cat2(self.rest.as_str(), s);
        let parts = text::split(all.as_str(), '\n');
        let ghost views = split_on(all@, '\n');
        proof {
            text::lemma_split_lengths(all@, '\n');
            assert(text::views(parts@).len() == parts@.len());
            reveal_strlit("\r");
        }
        let last: usize = parts.len() - 1;
        let mut out: Vec<String> = Vec::new();
        let mut i: usize = 0;
        while i < last
            invariant
                last + 1 == parts@.len(),
                i <= last,
                views == text::views(parts@),
                "\r"@.len() == 1,
                out@.len() == i,
                forall|j: int|
                    0 <= j < i ==> (#[trigger] out@[j])@ == without_suffixes(views[j], "\r"@),
            decreases last - i,
        {
            proof {
                assert(views[i as int] == parts@[i as int]@);
            }
            out.push(text::trim_end_matches(parts[i].as_str(), "\r"));
            i = i + 1;
        }
        proof {
            assert(views.last() == parts@[last as int]@);
            assert(text::views(out@) =~= lines_in(all@));
        }
        self.rest = parts[last].clone();
        out
    }

    /// Takes in some bytes, and gives out the lines that are complete.
    pub fn push(&mut self, data: &[u8]) -> (r: Vec<String>)
        ensures
            text::views(r@) == lines_in(old(self).rest@ + utf8_lossy_of(data@)),
            final(self).rest@ == rest_of(old(self).rest@ + utf8_lossy_of(data@)),
    {
        let s = text_from_utf8_lossy(data);
        self.push_text(s.as_str())
    }

    /// What is left at the end, if anything is.
    pub fn finish(&self) -> (r: Option<String>)
        ensures
            match r {
                Some(t) => self.rest@.len() > 0 && t@ == without_suffixes(self.rest@, "\r"@),
                None => self.rest@.len() == 0,
            },
    {
        if self.rest.as_str().is_empty() {
            return None;
        }
        proof {
            reveal_strlit("\r");
        }
        Some(text::trim_end_matches(self.rest.as_str(), "\r"))
    }
}

proof fn lemma_find_in_longer(a: Seq<char>, b: Seq<char>, c: char)
    requires
        find_char(a, c, 0) is Some,
    ensures
        find_char(a + b, c, 0) == find_char(a, c, 0),
{
    lemma_find_char(a, c, 0);
    lemma_find_char(a + b, c, 0);
    let i = find_char(a, c, 0)->0;
    assert((a + b)[i] == a[i]);
    match find_char(a + b, c, 0) {
        Some(k) => {
            if k < i {
                assert((a + b)[k] == a[k]);
            }
        },
        None => {},
    }
}

proof fn lemma_split_append(a: Seq<char>, b: Seq<char>, c: char)
    ensures
        split_on(a + b, c) == split_on(a, c).drop_last() + split_on(split_on(a, c).last() + b, c),
    decreases a.len(),
{
    match find_char(a, c, 0) {
        Some(i) => {
            lemma_find_char(a, c, 0);
            lemma_find_in_longer(a, b, c);
            let tail = a.skip(i + 1);
            lemma_split_append(tail, b, c);
            text::lemma_split_lengths(tail, c);
            assert((a + b).take(i) =~= a.take(i));
            assert((a + b).skip(i + 1) =~= tail + b);
            assert(split_on(a, c) =~= seq![a.take(i)] + split_on(tail, c));
            assert(split_on(a, c).drop_last() =~= seq![a.take(i)] + split_on(tail, c).drop_last());
            assert(split_on(a, c).last() == split_on(tail, c).last());
            assert(split_on(a + b, c) =~= seq![a.take(i)] + split_on(tail + b, c));
        },
        None => {
            assert(split_on(a, c) =~= seq![a]);
            assert(split_on(a, c).drop_last() =~= seq![]);
            assert(seq![] + split_on(a + b, c) =~= split_on(a + b, c));
        },
    }
}

/// How a stream is cut into pieces does not matter: two pieces one after the other give the
/// lines, and leave the rest, that both at once do.
pub proof fn law_cuts_do_not_matter(rest: Seq<char>, a: Seq<char>, b: Seq<char>)
    ensures
        lines_in(rest + a) + lines_in(rest_of(rest + a) + b) == lines_in(rest + (a + b)),
        rest_of(rest_of(rest + a) + b) == rest_of(rest + (a + b)),
{
    let s = rest + a;
    assert(rest + (a + b) =~= s + b);
    lemma_split_append(s, b, '\n');
    text::lemma_split_lengths(s, '\n');
    let left = split_on(s, '\n').last() + b;
    text::lemma_split_lengths(left, '\n');
    assert(split_on(s + b, '\n').drop_last() =~= split_on(s, '\n').drop_last() + split_on(
        left,
        '\n',
    ).drop_last());
    assert(lines_in(s) + lines_in(left) =~= lines_in(s + b));
}

/// What is passed on of a line. `padded` is its event made fit and filled up, where it is one.
pub open spec fn relayed(line: Seq<char>, padded: Option<Seq<char>>) -> Seq<char> {
    if line.len() == 0 {
        "\n"@
    } else if has_prefix(line, "data: "@) && has_text(line, "[DONE]"@) {
        trimmed_end(padded_line(line)) + "\n"@
    } else if has_prefix(line, "data: "@) && padded is Some {
        trimmed_end(padded->0) + "\n"@
    } else {
        line + "\n"@
    }
}

/// The content of a line that is an event and not the end, if it is one.
pub open spec fn event_in(line: Seq<char>) -> Option<Seq<char>> {
    if has_prefix(line, "data: "@) && !has_text(line, "[DONE]"@) {
        Some(line.skip(6))
    } else {
        None
    }
}

/// Reads the content of a line that is an event.
pub fn event_content(line: &str) -> (r: Option<String>)
    ensures
        match r {
            Some(c) => event_in(line@) == Some(c@),
            None => event_in(line@) is None,
        },
{
    if text::starts_with(line, "data: ") && !text::contains(line, "[DONE]") {
        let v = chars_of(line);
        let len: usize = v.len();
        proof {
            reveal_strlit("data: ");
            assert(line@.subrange(6, line@.len() as int) =~= line@.skip(6));
        }
        Some(string_of(v.as_slice(), 6, len))
    } else {
        None
    }
}

/// Passes a line on.
pub fn relay(line: &str, padded: &Option<String>) -> (r: String)
    requires
        encode_utf8(line@).len() + 5 <= usize::MAX,
    ensures
        r@ == relayed(
            line@,
            match *padded {
                Some(p) => Some(p@),
                None => None,
            },
        ),
{
    if line.is_empty() {
        return "\n".to_string();
    }
    if text::starts_with(line, "data: ") {
        if text::contains(line, "[DONE]") {
            let filled = pad_raw_sse(line);
            let bare = text::trim_end(filled.as_str());
            return text::cat2(bare.as_str(), "\n");
        }
        if let Some(p) = padded {
            let bare = text::trim_end(p.as_str());
            return text::cat2(bare.as_str(), "\n");
        }
    }
    text::cat2(line, "\n")
}

/// The model that an answer is known to come from, once an event is known.
pub open spec fn model_after(known: Seq<char>, event: JsonValue) -> Seq<char> {
    if known == "tinfoil-unknown"@ {
        match text_at(event, "model"@) {
            Some(m) => m,
            None => known,
        }
    } else {
        known
    }
}

/// Learns the model that an answer comes from, from the first event that names it.
pub fn detect_model(known: &str, event: &Json) -> (r: String)
    ensures
        r@ == model_after(known@, event@),
{
    if text_eq(known, "tinfoil-unknown") {
        if let Some(m) = event.text_at("model") {
            return m.clone();
        }
    }
    known.to_string()
}

/// What the client is told of a stream that breaks off.
pub fn tinfoil_stream_failure(error: &str) -> (r: Json)
    ensures
        r@ == unavailable_value("Tinfoil stream error: "@ + error@),
{
    let message = text::cat2("Tinfoil stream error: ", error);
    unavailable(message.as_str())
}

} // verus!
