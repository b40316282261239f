//! Streamed answers at a steady beat: whatever arrives between two beats goes out as one
//! event, and a beat without news goes out as an empty one.

use vstd::prelude::*;
use vstd::utf8::encode_utf8;

use crate::bytes::copy_bytes;
use crate::crypto_e2ee::chunk_opened;
use crate::crypto_e2ee::chunk_text;
use crate::crypto_e2ee::StreamRatchet;
use crate::json::elements_at;
use crate::json::fields_of;
use crate::json::lemma_array_view;
use crate::json::lemma_object_view;
use crate::json::text_at;
use crate::json::unsigned_at;
use crate::json::values_of;
use crate::json::Json;
use crate::json::JsonValue;
use crate::primitives::gen_random_bytes;
use crate::primitives::text_from_utf8;
use crate::response::can_encrypt;
use crate::response::encrypt_text_with;
use crate::response::moved_on;
use crate::response::ratchet_at;
use crate::response::RatchetAt;
use crate::text;
use crate::text::chars_of;
use crate::text::has_prefix;
use crate::text::push_text;
use crate::text::split_on;
use crate::text::string_of;
use crate::text::string_of_all;
use crate::text::text_eq;
use crate::text::trimmed;

verus! {

// ---------------------------------------------------------------------------
// Lines of a stream
// ---------------------------------------------------------------------------

/// What a line of a stream is.
pub enum Line {
    /// Nothing that matters.
    Nothing,
    /// The end of the stream.
    Done,
    /// A data line, with its content.
    Data(String),
    /// A line that begins a JSON object without being a data line.
    Bare(String),
    /// Anything else.
    Other(String),
}

/// What a line of a stream says.
pub enum LineKind {
    Nothing,
    Done,
    Data(Seq<char>),
    Bare(Seq<char>),
    Other(Seq<char>),
}

impl Line {
    /// What the line says.
    pub open spec fn view(&self) -> LineKind {
        match *self {
            Line::Nothing => LineKind::Nothing,
            Line::Done => LineKind::Done,
            Line::Data(s) => LineKind::Data(s@),
            Line::Bare(s) => LineKind::Bare(s@),
            Line::Other(s) => LineKind::Other(s@),
        }
    }
}

/// What a line of a stream is: white space round it does not count.
pub open spec fn line_kind(line: Seq<char>) -> LineKind {
    let t = trimmed(line);
    if t.len() == 0 {
        LineKind::Nothing
    } else if has_prefix(t, "data: "@) {
        let content = trimmed(t.skip(6));
        if content == "[DONE]"@ {
            LineKind::Done
        } else {
            LineKind::Data(content)
        }
    } else if t[0] == '{' {
        LineKind::Bare(t)
    } else {
        LineKind::Other(t)
    }
}

/// Tells what a line of a stream is.
pub fn classify_line(line: &str) -> (r: Line)
    ensures
        r@ == line_kind(line@),
{
    let t = text::trim(line);
    let v = chars_of(t.as_str());
    if v.len() == 0 {
        return Line::Nothing;
    }
    if text::starts_with(t.as_str(), "data: ") {
        proof {
            reveal_strlit("data: ");
            assert(t@.subrange(6, t@.len() as int) =~= t@.skip(6));
        }
        let rest = string_of(v.as_slice(), 6, v.len());
        let content = text::trim(rest.as_str());
        if text_eq(content.as_str(), "[DONE]") {
            return Line::Done;
        }
        return Line::Data(content);
    }
    if v[0] == '{' {
        Line::Bare(t)
    } else {
        Line::Other(t)
    }
}

/// What some lines say.
pub open spec fn kinds_of(v: Seq<Line>) -> Seq<LineKind> {
    v.map_values(|l: Line| l@)
}

/// The lines of a frame: none where its bytes are no text.
pub fn frame_lines(data: &[u8]) -> (r: Vec<Line>)
    ensures
        kinds_of(r@) == (if vstd::utf8::valid_utf8(data@) {
            split_on(vstd::utf8::decode_utf8(data@), '\n').map_values(
                |l: Seq<char>| line_kind(l),
            )
        } else {
            seq![]
        }),
{
    let mut out: Vec<Line> = Vec::new();
    let copied = copy_bytes(data, 0, data.len());
    proof {
        assert(data@.subrange(0, data@.len() as int) =~= data@);
    }
    match text_from_utf8(copied) {
        None => {
            proof {
                assert(kinds_of(out@) =~= Seq::<LineKind>::empty());
            }
            out
        },
        Some(s) => {
            proof {
                vstd::utf8::encode_utf8_decode_utf8(s@);
                vstd::utf8::encode_utf8_valid_utf8(s@);
            }
            let lines = text::split(s.as_str(), '\n');
            let mut i: usize = 0;
            while i < lines.len()
                invariant
                    i <= lines@.len(),
                    out@.len() == i,
                    forall|j: int| 0 <= j < i ==> (#[trigger] out@[j])@ == line_kind(lines@[j]@),
                decreases lines@.len() - i,
            {
                out.push(classify_line(lines[i].as_str()));
                i = i + 1;
            }
            proof {
                let pieces = split_on(s@, '\n');
                assert(pieces == text::views(lines@));
                assert(kinds_of(out@) =~= pieces.map_values(|l: Seq<char>| line_kind(l)));
            }
            out
        },
    }
}

// ---------------------------------------------------------------------------
// What has arrived
// ---------------------------------------------------------------------------

/// What the events of a stream have in common.
#[verifier::ext_equal]
pub struct StreamMeta {
    pub id: Option<Seq<char>>,
    pub object: Option<Seq<char>>,
    pub created: Option<u64>,
    pub model: Option<Seq<char>>,
    pub provider: Option<Seq<char>>,
    pub fingerprint: Option<Seq<char>>,
}

/// What has arrived since the last beat, and what is known of the stream.
#[verifier::ext_equal]
pub struct Arrived {
    pub meta: StreamMeta,
    pub usage: Option<JsonValue>,
    pub content: Seq<char>,
    pub reasoning: Seq<char>,
    pub finish: Option<Seq<char>>,
    pub error: Option<JsonValue>,
    pub got_choices: bool,
    pub upstream_done: bool,
    pub sent_done: bool,
}

/// Nothing has arrived yet.
pub open spec fn nothing_arrived() -> Arrived {
    Arrived {
        meta: StreamMeta {
            id: None,
            object: None,
            created: None,
            model: None,
            provider: None,
            fingerprint: None,
        },
        usage: None,
        content: seq![],
        reasoning: seq![],
        finish: None,
        error: None,
        got_choices: false,
        upstream_done: false,
        sent_done: false,
    }
}

/// The first of two values that is there.
pub open spec fn first_of<T>(a: Option<T>, b: Option<T>) -> Option<T> {
    match a {
        Some(x) => Some(x),
        None => b,
    }
}

/// A text with another behind it, if there is one.
pub open spec fn and_text(s: Seq<char>, more: Option<Seq<char>>) -> Seq<char> {
    match more {
        Some(t) => s + t,
        None => s,
    }
}

/// What has arrived once one choice is taken in: the texts of its piece are put behind
/// those that came before.
pub open spec fn with_choice(a: Arrived, choice: JsonValue) -> Arrived {
    let delta = choice.get("delta"@);
    Arrived {
        content: match delta {
            Some(d) => and_text(a.content, text_at(d, "content"@)),
            None => a.content,
        },
        reasoning: match delta {
            Some(d) => and_text(a.reasoning, text_at(d, "reasoning_content"@)),
            None => a.reasoning,
        },
        finish: first_of(text_at(choice, "finish_reason"@), a.finish),
        ..a
    }
}

/// What has arrived once some choices are taken in.
pub open spec fn with_choices(a: Arrived, choices: Seq<JsonValue>) -> Arrived
    decreases choices.len(),
{
    if choices.len() == 0 {
        a
    } else {
        with_choice(with_choices(a, choices.drop_last()), choices.last())
    }
}

/// What has arrived once the head of an event is taken in: what the first events say of the
/// stream stays, and the latest error and usage count.
pub open spec fn with_event_head(a: Arrived, event: JsonValue) -> Arrived {
    Arrived {
        meta: StreamMeta {
            id: first_of(a.meta.id, text_at(event, "id"@)),
            object: first_of(a.meta.object, text_at(event, "object"@)),
            created: first_of(a.meta.created, unsigned_at(event, "created"@)),
            model: first_of(a.meta.model, text_at(event, "model"@)),
            provider: first_of(a.meta.provider, text_at(event, "provider"@)),
            fingerprint: first_of(a.meta.fingerprint, text_at(event, "system_fingerprint"@)),
        },
        error: first_of(event.get("error"@), a.error),
        usage: first_of(event.get("usage"@), a.usage),
        ..a
    }
}

/// What has arrived once an event is taken in: its head counts, and its choices are put
/// together with those before.
pub open spec fn with_event(a: Arrived, event: JsonValue) -> Arrived {
    let b = with_event_head(a, event);
    match elements_at(event, "choices"@) {
        Some(choices) => with_choices(
            Arrived { got_choices: b.got_choices || choices.len() > 0, ..b },
            choices,
        ),
        None => b,
    }
}

// ---------------------------------------------------------------------------
// What goes out
// ---------------------------------------------------------------------------

/// What goes out at a beat.
pub enum Emission {
    /// A JSON event.
    Event(Json),
    /// The end of the stream.
    Done,
    /// Nothing more: the stream has ended.
    Stop,
    /// The answer could not be encrypted.
    Failed,
}

/// A field, if its text is there.
pub open spec fn text_field(key: Seq<char>, v: Option<Seq<char>>) -> Seq<(Seq<char>, JsonValue)> {
    match v {
        Some(s) => seq![(key, JsonValue::Str(s))],
        None => seq![],
    }
}

/// The fields that all events of a stream carry.
pub open spec fn meta_fields(m: StreamMeta) -> Seq<(Seq<char>, JsonValue)> {
    text_field("id"@, m.id) + text_field("object"@, m.object) + (match m.created {
        Some(n) => seq![("created"@, JsonValue::Unsigned(n))],
        None => seq![],
    }) + text_field("model"@, m.model) + text_field("provider"@, m.provider) + text_field(
        "system_fingerprint"@,
        m.fingerprint,
    )
}

/// An event with one choice: the texts that arrived and how the answer finished.
pub open spec fn choice_event(
    m: StreamMeta,
    content: Option<Seq<char>>,
    reasoning: Option<Seq<char>>,
    finish: Option<Seq<char>>,
) -> JsonValue {
    let delta = text_field("content"@, content) + text_field("reasoning_content"@, reasoning);
    let choice = seq![
        ("index"@, JsonValue::Unsigned(0)),
        ("delta"@, JsonValue::Obj(delta)),
    ] + text_field("finish_reason"@, finish);
    JsonValue::Obj(
        seq![("choices"@, JsonValue::Arr(seq![JsonValue::Obj(choice)]))] + meta_fields(m),
    )
}

/// An event without choices that states the usage.
pub open spec fn usage_event(m: StreamMeta, usage: JsonValue) -> JsonValue {
    JsonValue::Obj(
        (seq![("choices"@, JsonValue::Arr(seq![]))] + meta_fields(m)).push(("usage"@, usage)),
    )
}

/// An event that says nothing.
pub open spec fn empty_event() -> JsonValue {
    JsonValue::Obj(
        seq![
            (
                "choices"@,
                JsonValue::Arr(
                    seq![JsonValue::Obj(seq![("delta"@, JsonValue::Obj(seq![]))])],
                ),
            ),
        ],
    )
}

/// An event that states an error.
pub open spec fn error_event(error: JsonValue) -> JsonValue {
    JsonValue::Obj(seq![("error"@, error)])
}

/// A text, if it is not empty.
pub open spec fn if_any(s: Seq<char>) -> Option<Seq<char>> {
    if s.len() == 0 {
        None
    } else {
        Some(s)
    }
}

/// The chunk that puts together what has arrived of an answer: the content, then the
/// reasoning, then how the answer finished.
pub open spec fn chunk_of(a: Arrived) -> JsonValue {
    choice_event(a.meta, if_any(a.content), if_any(a.reasoning), a.finish)
}

/// An event that holds an encrypted chunk.
pub open spec fn sealed_event(chunk: Seq<char>) -> JsonValue {
    JsonValue::Obj(seq![("e2e"@, JsonValue::Str(chunk))])
}

/// Whether a beat has something of an answer to send.
pub open spec fn has_news(a: Arrived) -> bool {
    a.got_choices || a.content.len() > 0 || a.reasoning.len() > 0 || a.finish is Some
}

/// What is left once a beat has gone by: only what is known of the stream.
pub open spec fn emptied(a: Arrived) -> Arrived {
    Arrived {
        content: seq![],
        reasoning: seq![],
        finish: None,
        error: None,
        got_choices: false,
        ..a
    }
}

/// Whether a beat sends a chunk of the answer: an error goes first, and nothing follows the
/// end.
pub open spec fn sends_chunk(a: Arrived) -> bool {
    !a.sent_done && a.error is None && has_news(a)
}

/// What a beat does: it sends exactly one of an error, the chunk of what arrived, the usage,
/// the end, or an empty event, and nothing once the end or an error was sent. In a session
/// the chunk goes out encrypted: `written` is its text, and `drawn` the nonce that was drawn
/// for it. Where none could be drawn, or the text cannot be encrypted, nothing changes.
pub open spec fn beat(
    a: Arrived,
    r: Option<RatchetAt>,
    written: Seq<char>,
    drawn: Option<Seq<u8>>,
    out: Emission,
    after: Arrived,
    after_r: Option<RatchetAt>,
) -> bool {
    if a.sent_done {
        out is Stop && after == a && after_r == r
    } else if a.error is Some {
        &&& out is Event
        &&& out->Event_0@ == error_event(a.error->0)
        &&& after == (Arrived { sent_done: true, ..emptied(a) })
        &&& after_r == r
    } else if has_news(a) {
        match r {
            None => {
                &&& out is Event
                &&& out->Event_0@ == chunk_of(a)
                &&& after == emptied(a)
                &&& after_r == r
            },
            Some(at) => if drawn is Some && can_encrypt(written, at) {
                let chunk = chunk_text(at.key, drawn->0, at.aad, encode_utf8(written));
                &&& out is Event
                &&& out->Event_0@ == sealed_event(chunk)
                &&& chunk_opened(at.key, at.aad, chunk) == Some(encode_utf8(written))
                &&& after == emptied(a)
                &&& after_r == Some(moved_on(at))
            } else {
                out is Failed && after == a && after_r == r
            },
        }
    } else if a.upstream_done && a.usage is Some {
        &&& out is Event
        &&& out->Event_0@ == usage_event(a.meta, a.usage->0)
        &&& after == (Arrived { usage: None, ..emptied(a) })
        &&& after_r == r
    } else if a.upstream_done {
        &&& out is Done
        &&& after == (Arrived { sent_done: true, ..emptied(a) })
        &&& after_r == r
    } else {
        &&& out is Event
        &&& out->Event_0@ == empty_event()
        &&& after == emptied(a)
        &&& after_r == r
    }
}

/// Puts what arrives between two beats together.
pub struct TimingAggregator {
    id: Option<String>,
    object: Option<String>,
    created: Option<u64>,
    model: Option<String>,
    provider: Option<String>,
    fingerprint: Option<String>,
    usage: Option<Json>,
    content: Vec<char>,
    reasoning: Vec<char>,
    finish: Option<String>,
    error: Option<Json>,
    got_choices: bool,
    upstream_done: bool,
    sent_done: bool,
    ratchet: Option<StreamRatchet>,
}

spec fn shown_text(s: Option<String>) -> Option<Seq<char>> {
    match s {
        Some(t) => Some(t@),
        None => None,
    }
}

/// A nonce, if one was drawn.
pub open spec fn shown_nonce(drawn: Option<[u8; 12]>) -> Option<Seq<u8>> {
    match drawn {
        Some(nonce) => Some(nonce@),
        None => None,
    }
}

/// A text, if it is not empty.
fn text_if_any(v: &Vec<char>) -> (r: Option<String>)
    ensures
        shown_text(r) == if_any(v@),
{
    if v.len() == 0 {
        None
    } else {
        Some(string_of_all(v.as_slice()))
    }
}

spec fn shown_json(j: Option<Json>) -> Option<JsonValue> {
    match j {
        Some(v) => Some(v@),
        None => None,
    }
}

/// Keeps the first text that a key had.
fn keep_first(slot: &mut Option<String>, event: &Json, key: &str)
    ensures
        shown_text(*final(slot)) == first_of(shown_text(*old(slot)), text_at(event@, key@)),
{
    if slot.is_none() {
        match event.text_at(key) {
            Some(s) => {
                *slot = Some(s.clone());
            },
            None => {},
        }
    }
}

fn push_text_field(fields: &mut Vec<(String, Json)>, key: &str, v: &Option<String>)
    ensures
        fields_of(final(fields)@) == fields_of(old(fields)@) + text_field(key@, shown_text(*v)),
{
    let ghost before = fields_of(fields@);
    match v {
        Some(s) => {
            let name = key.to_string();
            let value = Json::Str(s.clone());
            fields.push((name, value));
            proof {
                assert(fields_of(fields@) =~= before + text_field(key@, Some(s@)));
            }
        },
        None => {
            proof {
                assert(before + text_field(key@, None) =~= before);
            }
        },
    }
}

impl TimingAggregator {
    /// What has arrived.
    pub closed spec fn arrived(&self) -> Arrived {
        Arrived {
            meta: StreamMeta {
                id: shown_text(self.id),
                object: shown_text(self.object),
                created: self.created,
                model: shown_text(self.model),
                provider: shown_text(self.provider),
                fingerprint: shown_text(self.fingerprint),
            },
            usage: shown_json(self.usage),
            content: self.content@,
            reasoning: self.reasoning@,
            finish: shown_text(self.finish),
            error: shown_json(self.error),
            got_choices: self.got_choices,
            upstream_done: self.upstream_done,
            sent_done: self.sent_done,
        }
    }

    /// Where the ratchet stands, if there is one.
    pub closed spec fn at(&self) -> Option<RatchetAt> {
        match self.ratchet {
            Some(r) => Some(ratchet_at(r)),
            None => None,
        }
    }

    /// Whether the ratchet, if there is one, can be used.
    pub closed spec fn wf(&self) -> bool {
        self.ratchet matches Some(r) ==> r.wf()
    }

    /// Nothing has arrived yet. With a ratchet, texts go out encrypted.
    pub fn new(ratchet: Option<StreamRatchet>) -> (r: Self)
        requires
            ratchet matches Some(x) ==> x.wf(),
        ensures
            r.wf(),
            r.arrived() == nothing_arrived(),
            r.at() == (match ratchet {
                Some(x) => Some(ratchet_at(x)),
                None => None,
            }),
    {
        let content: Vec<char> = Vec::new();
        let reasoning: Vec<char> = Vec::new();
        TimingAggregator {
            id: None,
            object: None,
            created: None,
            model: None,
            provider: None,
            fingerprint: None,
            usage: None,
            content,
            reasoning,
            finish: None,
            error: None,
            got_choices: false,
            upstream_done: false,
            sent_done: false,
            ratchet,
        }
    }

    /// The upstream has ended, or said that it is done.
    pub fn finish_upstream(&mut self)
        requires
            old(self).wf(),
        ensures
            final(self).wf(),
            final(self).at() == old(self).at(),
            final(self).arrived() == (Arrived { upstream_done: true, ..old(self).arrived() }),
    {
        self.upstream_done = true;
    }

    /// Takes in a JSON object that came without being a data line: only an error in it counts.
    pub fn absorb_bare(&mut self, event: &Json)
        requires
            old(self).wf(),
        ensures
            final(self).wf(),
            final(self).at() == old(self).at(),
            final(self).arrived() == (Arrived {
                error: first_of(event@.get("error"@), old(self).arrived().error),
                ..old(self).arrived()
            }),
    {
        match event.get("error") {
            Some(e) => {
                self.error = Some(e.copy());
            },
            None => {},
        }
    }

    fn absorb_choice(&mut self, choice: &Json)
        requires
            old(self).wf(),
        ensures
            final(self).wf(),
            final(self).at() == old(self).at(),
            final(self).arrived() == with_choice(old(self).arrived(), choice@),
    {
        if let Some(delta) = choice.get("delta") {
            if let Some(c) = delta.text_at("content") {
                push_text(&mut self.content, c.as_str());
            }
            if let Some(r) = delta.text_at("reasoning_content") {
                push_text(&mut self.reasoning, r.as_str());
            }
        }
        if let Some(f) = choice.text_at("finish_reason") {
            self.finish = Some(f.clone());
        }
    }

    /// Takes in the JSON of a data line.
    pub fn absorb(&mut self, event: &Json)
        requires
            old(self).wf(),
        ensures
            final(self).wf(),
            final(self).at() == old(self).at(),
            final(self).arrived() == with_event(old(self).arrived(), event@),
    {
        keep_first(&mut self.id, event, "id");
        keep_first(&mut self.object, event, "object");
        if self.created.is_none() {
            self.created = event.unsigned_at("created");
        }
        keep_first(&mut self.model, event, "model");
        keep_first(&mut self.provider, event, "provider");
        keep_first(&mut self.fingerprint, event, "system_fingerprint");
        self.absorb_bare(event);
        match event.get("usage") {
            Some(u) => {
                self.usage = Some(u.copy());
            },
            None => {},
        }
        if let Some(choices) = event.elements_at("choices") {
            if choices.len() > 0 {
                self.got_choices = true;
            }
            let ghost all = values_of(choices@);
            let ghost start = self.arrived();
            let mut i: usize = 0;
            proof {
                assert(all.take(0).len() == 0);
            }
            while i < choices.len()
                invariant
                    i <= choices@.len(),
                    all == values_of(choices@),
                    self.wf(),
                    self.at() == old(self).at(),
                    self.arrived() == with_choices(start, all.take(i as int)),
                decreases choices@.len() - i,
            {
                proof {
                    assert(all.take(i + 1).drop_last() =~= all.take(i as int));
                    assert(all.take(i + 1).last() == choices@[i as int]@);
                }
                self.absorb_choice(&choices[i]);
                i = i + 1;
            }
            proof {
                assert(all.take(all.len() as int) =~= all);
            }
        }
    }

    /// Adds the fields that all events of the stream carry.
    fn push_meta(&self, fields: &mut Vec<(String, Json)>)
        ensures
            fields_of(final(fields)@) == fields_of(old(fields)@) + meta_fields(
                self.arrived().meta,
            ),
    {
        let ghost before = fields_of(fields@);
        push_text_field(fields, "id", &self.id);
        push_text_field(fields, "object", &self.object);
        let ghost two = fields_of(fields@);
        if let Some(n) = self.created {
            let name = "created".to_string();
            fields.push((name, Json::Unsigned(n)));
            proof {
                assert(fields_of(fields@) =~= two.push(("created"@, JsonValue::Unsigned(n))));
            }
        }
        push_text_field(fields, "model", &self.model);
        push_text_field(fields, "provider", &self.provider);
        push_text_field(fields, "system_fingerprint", &self.fingerprint);
        proof {
            assert(fields_of(fields@) =~= before + meta_fields(self.arrived().meta));
        }
    }

    /// Forgets what belongs to the beat that is over.
    fn clear_beat(&mut self)
        ensures
            final(self).arrived() == emptied(old(self).arrived()),
            final(self).ratchet == old(self).ratchet,
    {
        self.content = Vec::new();
        self.reasoning = Vec::new();
        self.finish = None;
        self.error = None;
        self.got_choices = false;
    }

    /// Puts the chunk of what has arrived together.
    fn put_together(&self) -> (r: Json)
        ensures
            r@ == chunk_of(self.arrived()),
    {
        let content = text_if_any(&self.content);
        let reasoning = text_if_any(&self.reasoning);
        let mut delta: Vec<(String, Json)> = Vec::new();
        proof {
            assert(fields_of(delta@) =~= Seq::<(Seq<char>, JsonValue)>::empty());
        }
        push_text_field(&mut delta, "content", &content);
        push_text_field(&mut delta, "reasoning_content", &reasoning);
        proof {
            lemma_object_view(delta);
            assert(fields_of(delta@) =~= text_field("content"@, shown_text(content)) + text_field(
                "reasoning_content"@,
                shown_text(reasoning),
            ));
        }
        let mut choice: Vec<(String, Json)> = Vec::new();
        let index = "index".to_string();
        choice.push((index, Json::Unsigned(0)));
        let delta_name = "delta".to_string();
        choice.push((delta_name, Json::Obj(delta)));
        proof {
            assert(fields_of(choice@) =~= seq![
                ("index"@, JsonValue::Unsigned(0)),
                ("delta"@, JsonValue::Obj(fields_of(delta@))),
            ]);
        }
        push_text_field(&mut choice, "finish_reason", &self.finish);
        let mut choices: Vec<Json> = Vec::new();
        proof {
            lemma_object_view(choice);
        }
        choices.push(Json::Obj(choice));
        proof {
            lemma_array_view(choices);
            assert(values_of(choices@) =~= seq![JsonValue::Obj(fields_of(choice@))]);
        }
        let mut fields: Vec<(String, Json)> = Vec::new();
        let name = "choices".to_string();
        fields.push((name, Json::Arr(choices)));
        proof {
            assert(fields_of(fields@) =~= seq![("choices"@, JsonValue::Arr(values_of(choices@)))]);
        }
        self.push_meta(&mut fields);
        proof {
            lemma_object_view(fields);
        }
        Json::Obj(fields)
    }

    /// Whether the next beat sends a chunk of the answer encrypted.
    fn seals(&self) -> (r: bool)
        ensures
            r == (self.at() is Some && sends_chunk(self.arrived())),
    {
        self.ratchet.is_some() && !self.sent_done && self.error.is_none() && (self.got_choices
            || self.content.len() > 0 || self.reasoning.len() > 0 || self.finish.is_some())
    }

    /// The chunk that the next beat sends encrypted, in a session. Its text is what the beat
    /// is to be given.
    pub fn chunk_to_seal(&self) -> (r: Option<Json>)
        ensures
            r is Some <==> self.at() is Some && sends_chunk(self.arrived()),
            r matches Some(chunk) ==> chunk@ == chunk_of(self.arrived()),
    {
        if self.seals() {
            Some(self.put_together())
        } else {
            None
        }
    }

    /// The beat: sends what has arrived since the last one. In a session `written` is the text
    /// of [`Self::chunk_to_seal`].
    pub fn tick(&mut self, written: &str) -> (r: Emission)
        requires
            old(self).wf(),
        ensures
            final(self).wf(),
            r is Failed ==> old(self).at() is Some && sends_chunk(old(self).arrived()),
            exists|drawn: Option<Seq<u8>>|
                (drawn matches Some(nonce) ==> nonce.len() == 12) && #[trigger] beat(
                    old(self).arrived(),
                    old(self).at(),
                    written@,
                    drawn,
                    r,
                    final(self).arrived(),
                    final(self).at(),
                ),
    {
        let drawn = if self.seals() {
            gen_random_bytes::<12>()
        } else {
            None
        };
        proof {
            assert(drawn matches Some(nonce) ==> nonce@.len() == 12);
        }
        self.tick_with(written, drawn)
    }

    /// The beat, with a nonce that was drawn, if one could be.
    pub fn tick_with(&mut self, written: &str, drawn: Option<[u8; 12]>) -> (r: Emission)
        requires
            old(self).wf(),
        ensures
            final(self).wf(),
            beat(
                old(self).arrived(),
                old(self).at(),
                written@,
                shown_nonce(drawn),
                r,
                final(self).arrived(),
                final(self).at(),
            ),
    {
        if self.sent_done {
            return Emission::Stop;
        }
        if let Some(e) = &self.error {
            let value = e.copy();
            let mut fields: Vec<(String, Json)> = Vec::new();
            let name = "error".to_string();
            fields.push((name, value));
            proof {
                lemma_object_view(fields);
                assert(fields_of(fields@) =~= seq![("error"@, value@)]);
            }
            self.clear_beat();
            self.sent_done = true;
            return Emission::Event(Json::Obj(fields));
        }
        if self.got_choices || self.content.len() > 0 || self.reasoning.len() > 0
            || self.finish.is_some() {
            return self.tick_news(written, drawn);
        }
        let mut fields: Vec<(String, Json)> = Vec::new();
        let name = "choices".to_string();
        if self.upstream_done {
            match self.usage.take() {
                Some(u) => {
                    let choices: Vec<Json> = Vec::new();
                    proof {
                        lemma_array_view(choices);
                        assert(values_of(choices@) =~= Seq::<JsonValue>::empty());
                    }
                    fields.push((name, Json::Arr(choices)));
                    proof {
                        assert(fields_of(fields@) =~= seq![
                            ("choices"@, JsonValue::Arr(Seq::<JsonValue>::empty())),
                        ]);
                    }
                    self.push_meta(&mut fields);
                    let ghost before = fields_of(fields@);
                    let usage_name = "usage".to_string();
                    fields.push((usage_name, u));
                    proof {
                        assert(fields_of(fields@) =~= before.push(("usage"@, u@)));
                        lemma_object_view(fields);
                    }
                    self.clear_beat();
                    Emission::Event(Json::Obj(fields))
                },
                None => {
                    self.clear_beat();
                    self.sent_done = true;
                    Emission::Done
                },
            }
        } else {
            let nothing: Vec<(String, Json)> = Vec::new();
            let mut choice: Vec<(String, Json)> = Vec::new();
            let mut choices: Vec<Json> = Vec::new();
            proof {
                lemma_object_view(nothing);
                assert(fields_of(nothing@) =~= Seq::<(Seq<char>, JsonValue)>::empty());
            }
            let delta = "delta".to_string();
            choice.push((delta, Json::Obj(nothing)));
            proof {
                lemma_object_view(choice);
                assert(fields_of(choice@) =~= seq![
                    ("delta"@, JsonValue::Obj(Seq::<(Seq<char>, JsonValue)>::empty())),
                ]);
            }
            choices.push(Json::Obj(choice));
            proof {
                lemma_array_view(choices);
                assert(values_of(choices@) =~= seq![JsonValue::Obj(fields_of(choice@))]);
            }
            fields.push((name, Json::Arr(choices)));
            proof {
                lemma_object_view(fields);
                assert(fields_of(fields@) =~= seq![
                    ("choices"@, JsonValue::Arr(values_of(choices@))),
                ]);
            }
            self.clear_beat();
            Emission::Event(Json::Obj(fields))
        }
    }

    /// Sends the chunk of what has arrived.
    fn tick_news(&mut self, written: &str, drawn: Option<[u8; 12]>) -> (r: Emission)
        requires
            old(self).wf(),
            sends_chunk(old(self).arrived()),
        ensures
            final(self).wf(),
            beat(
                old(self).arrived(),
                old(self).at(),
                written@,
                shown_nonce(drawn),
                r,
                final(self).arrived(),
                final(self).at(),
            ),
    {
        match &mut self.ratchet {
            None => {},
            Some(x) => {
                match encrypt_text_with(written, x, drawn) {
                    None => {
                        return Emission::Failed;
                    },
                    Some(chunk) => {
                        let mut fields: Vec<(String, Json)> = Vec::new();
                        let name = "e2e".to_string();
                        fields.push((name, Json::Str(chunk)));
                        proof {
                            lemma_object_view(fields);
                            assert(fields_of(fields@) =~= seq![("e2e"@, JsonValue::Str(chunk@))]);
                        }
                        self.clear_beat();
                        return Emission::Event(Json::Obj(fields));
                    },
                }
            },
        }
        let chunk = self.put_together();
        self.clear_beat();
        Emission::Event(chunk)
    }
}

// ---------------------------------------------------------------------------
// What holds of the beat
// ---------------------------------------------------------------------------

/// The texts of some choices' pieces, one after the other.
pub open spec fn contents_of(choices: Seq<JsonValue>) -> Seq<char>
    decreases choices.len(),
{
    if choices.len() == 0 {
        seq![]
    } else {
        and_text(
            contents_of(choices.drop_last()),
            match choices.last().get("delta"@) {
                Some(d) => text_at(d, "content"@),
                None => None,
            },
        )
    }
}

/// Nothing of an event's content is lost: it is put behind what arrived before.
pub proof fn law_content_is_kept(a: Arrived, event: JsonValue)
    ensures
        with_event(a, event).content == a.content + (match elements_at(event, "choices"@) {
            Some(choices) => contents_of(choices),
            None => seq![],
        }),
{
    match elements_at(event, "choices"@) {
        Some(choices) => {
            let b = with_event_head(a, event);
            lemma_with_choices(
                Arrived { got_choices: b.got_choices || choices.len() > 0, ..b },
                choices,
            );
        },
        None => {
            assert(a.content + Seq::<char>::empty() =~= a.content);
        },
    }
}

proof fn lemma_with_choices(a: Arrived, choices: Seq<JsonValue>)
    ensures
        with_choices(a, choices).content == a.content + contents_of(choices),
    decreases choices.len(),
{
    if choices.len() == 0 {
        assert(a.content + Seq::<char>::empty() =~= a.content);
    } else {
        lemma_with_choices(a, choices.drop_last());
        assert(with_choices(a, choices).content =~= a.content + contents_of(choices));
    }
}

/// Every beat of a stream that has not ended sends something, unless a chunk could not be
/// encrypted, and then nothing is lost; once the end or an error was sent, nothing follows.
pub proof fn law_every_beat_sends(
    a: Arrived,
    r: Option<RatchetAt>,
    written: Seq<char>,
    drawn: Option<Seq<u8>>,
    out: Emission,
    after: Arrived,
    after_r: Option<RatchetAt>,
)
    requires
        beat(a, r, written, drawn, out, after, after_r),
    ensures
        a.sent_done <==> out is Stop,
        out is Done ==> after.sent_done,
        a.sent_done ==> after.sent_done,
        out is Failed ==> r is Some && sends_chunk(a) && after == a && after_r == r,
{
}

/// In a session, a chunk of the answer goes out under the one key `e2e`, and a client with
/// the key of its place reads the chunk's text.
pub proof fn law_session_chunks_are_sealed(
    a: Arrived,
    at: RatchetAt,
    written: Seq<char>,
    drawn: Option<Seq<u8>>,
    out: Emission,
    after: Arrived,
    after_r: Option<RatchetAt>,
)
    requires
        beat(a, Some(at), written, drawn, out, after, after_r),
        sends_chunk(a),
    ensures
        out is Failed <==> drawn is None || !can_encrypt(written, at),
        !(out is Failed) ==> out is Event && exists|chunk: Seq<char>|
            {
                &&& out->Event_0@ == #[trigger] sealed_event(chunk)
                &&& chunk_opened(at.key, at.aad, chunk) == Some(encode_utf8(written))
            },
        !(out is Failed) ==> after_r == Some(moved_on(at)),
{
    if !(out is Failed) {
        let chunk = chunk_text(at.key, drawn->0, at.aad, encode_utf8(written));
        assert(out->Event_0@ == sealed_event(chunk));
    }
}

/// A stream that has ended is closed within three beats: what is left of the answer, the
/// usage, the end.
pub proof fn law_stream_ends(
    a: Arrived,
    r: Option<RatchetAt>,
    written: Seq<char>,
    drawn: Option<Seq<u8>>,
    out: Emission,
    after: Arrived,
    after_r: Option<RatchetAt>,
)
    requires
        beat(a, r, written, drawn, out, after, after_r),
        a.upstream_done,
        !a.sent_done,
        !(out is Failed),
    ensures
        after.upstream_done,
        beats_left(after) < beats_left(a),
        0 <= beats_left(after),
        beats_left(a) <= 3,
{
}

/// The beats that a stream whose upstream has ended still needs.
pub open spec fn beats_left(a: Arrived) -> int {
    if a.sent_done {
        0
    } else if a.error is Some {
        1
    } else {
        1 + (if a.usage is Some {
            1int
        } else {
            0
        }) + (if has_news(a) {
            1int
        } else {
            0
        })
    }
}

} // verus!
