//! Answers of an enclave of Near AI: opening the sealed texts in them, and what to make of
//! each line of a stream.

use vstd::prelude::*;
use vstd::utf8::encode_utf8;

use crate::chat::Message;
use crate::json::field_of;
use crate::json::fields_of;
use crate::json::find_key;
use crate::json::lemma_array_view;
use crate::json::lemma_object_view;
use crate::json::set_field;
use crate::json::text_at;
use crate::json::values_of;
use crate::json::with_field;
use crate::json::Json;
use crate::json::JsonValue;
use crate::nearai_e2ee::v2_decrypt;
use crate::nearai_e2ee::v2_encrypt;
use crate::nearai_e2ee::v2_failure;
use crate::nearai_e2ee::v2_outcome;
use crate::nearai_e2ee::MAX_PLAIN;
use crate::primitives::x25519_public_of;
use crate::response::copy_fields;
use crate::text;
use crate::timing::Line;
use crate::timing::LineKind;

verus! {

/// The length, in bytes, from which on a text is taken to be sealed.
pub const MIN_V2_ENCRYPTED_HEX_LEN: usize = 112;

// ---------------------------------------------------------------------------
// Opening sealed texts
// ---------------------------------------------------------------------------

/// A text that is taken to be sealed, among some fields.
pub open spec fn sealed_text(fields: Seq<(Seq<char>, JsonValue)>, key: Seq<char>) -> Option<Seq<char>> {
    match field_of(fields, key) {
        Some(JsonValue::Str(s)) => if encode_utf8(s).len() >= MIN_V2_ENCRYPTED_HEX_LEN {
            Some(s)
        } else {
            None
        },
        _ => None,
    }
}

/// Some fields with one of them opened, and why it could not be.
pub open spec fn field_opened(
    fields: Seq<(Seq<char>, JsonValue)>,
    key: Seq<char>,
    secret: Seq<u8>,
) -> (Seq<(Seq<char>, JsonValue)>, Option<Seq<char>>) {
    match sealed_text(fields, key) {
        Some(s) => match v2_outcome(s, secret) {
            Ok(plain) => (with_field(fields, key, JsonValue::Str(plain)), None),
            Err(e) => (fields, Some(e)),
        },
        None => (fields, None),
    }
}

/// A message with its content and its reasoning opened, and what is said of the last of them
/// that could not be.
pub open spec fn message_opened(fields: Seq<(Seq<char>, JsonValue)>, secret: Seq<u8>) -> (
    Seq<(Seq<char>, JsonValue)>,
    Option<Seq<char>>,
) {
    let (once, first) = field_opened(fields, "content"@, secret);
    let (twice, second) = field_opened(once, "reasoning_content"@, secret);
    (
        twice,
        match (first, second) {
            (_, Some(e)) => Some("Failed to decrypt stream reasoning: "@ + e),
            (Some(e), None) => Some("Failed to decrypt stream content: "@ + e),
            (None, None) => None,
        },
    )
}

/// A choice with its message opened.
pub open spec fn choice_opened(choice: JsonValue, part: Seq<char>, secret: Seq<u8>) -> (
    JsonValue,
    Option<Seq<char>>,
) {
    match choice {
        JsonValue::Obj(fields) => match field_of(fields, part) {
            Some(JsonValue::Obj(message)) => {
                let (opened, error) = message_opened(message, secret);
                (JsonValue::Obj(with_field(fields, part, JsonValue::Obj(opened))), error)
            },
            _ => (choice, None),
        },
        _ => (choice, None),
    }
}

/// The choices with their messages opened.
pub open spec fn choices_opened(choices: Seq<JsonValue>, part: Seq<char>, secret: Seq<u8>) -> Seq<
    JsonValue,
> {
    choices.map_values(|c: JsonValue| choice_opened(c, part, secret).0)
}

/// What is said of the last of some choices that could not be opened.
pub open spec fn opening_error(choices: Seq<JsonValue>, part: Seq<char>, secret: Seq<u8>) -> Option<
    Seq<char>,
>
    decreases choices.len(),
{
    if choices.len() == 0 {
        None
    } else {
        match choice_opened(choices.last(), part, secret).1 {
            Some(e) => Some(e),
            None => opening_error(choices.drop_last(), part, secret),
        }
    }
}

/// An answer with its messages opened, and what is said of the last that could not be.
/// `part` is what a message is called: whole, or a piece of one.
pub open spec fn answer_opened(answer: JsonValue, part: Seq<char>, secret: Seq<u8>) -> (
    JsonValue,
    Option<Seq<char>>,
) {
    match answer {
        JsonValue::Obj(fields) => match field_of(fields, "choices"@) {
            Some(JsonValue::Arr(choices)) => (
                JsonValue::Obj(
                    with_field(
                        fields,
                        "choices"@,
                        JsonValue::Arr(choices_opened(choices, part, secret)),
                    ),
                ),
                opening_error(choices, part, secret),
            ),
            _ => (answer, None),
        },
        _ => (answer, None),
    }
}

/// An error, if there is one.
pub open spec fn error_text(e: Option<String>) -> Option<Seq<char>> {
    match e {
        Some(s) => Some(s@),
        None => None,
    }
}

fn open_field(fields: &mut Vec<(String, Json)>, key: &str, secret: &[u8; 32]) -> (r: Option<String>)
    ensures
        (fields_of(final(fields)@), error_text(r)) == field_opened(
            fields_of(old(fields)@),
            key@,
            secret@,
        ),
{
    let found = match find_key(fields, key) {
        Some(i) => match &fields[i].1 {
            Json::Str(s) => {
                if s.as_str().as_bytes().len() >= MIN_V2_ENCRYPTED_HEX_LEN {
                    Some(s.clone())
                } else {
                    None
                }
            },
            _ => None,
        },
        None => None,
    };
    match found {
        Some(s) => match v2_decrypt(s.as_str(), secret) {
            Ok(plain) => {
                set_field(fields, key, Json::Str(plain));
                None
            },
            Err(e) => Some(e),
        },
        None => None,
    }
}

fn open_message(fields: &mut Vec<(String, Json)>, secret: &[u8; 32]) -> (r: Option<String>)
    ensures
        (fields_of(final(fields)@), error_text(r)) == message_opened(
            fields_of(old(fields)@),
            secret@,
        ),
{
    let first = open_field(fields, "content", secret);
    let second = open_field(fields, "reasoning_content", secret);
    match second {
        Some(e) => Some(text::cat2("Failed to decrypt stream reasoning: ", e.as_str())),
        None => match first {
            Some(e) => Some(text::cat2("Failed to decrypt stream content: ", e.as_str())),
            None => None,
        },
    }
}

fn open_choice(choice: &Json, part: &str, secret: &[u8; 32]) -> (r: (Json, Option<String>))
    ensures
        (r.0@, error_text(r.1)) == choice_opened(choice@, part@, secret@),
{
    let fields = match choice {
        Json::Obj(f) => f,
        _ => {
            return (choice.copy(), None);
        },
    };
    proof {
        lemma_object_view(*fields);
    }
    let i = match find_key(fields, part) {
        Some(i) => i,
        None => {
            return (choice.copy(), None);
        },
    };
    match &fields[i].1 {
        Json::Obj(message) => {
            let mut opened = copy_fields(message);
            proof {
                lemma_object_view(*message);
            }
            let error = open_message(&mut opened, secret);
            proof {
                lemma_object_view(opened);
            }
            let mut all = copy_fields(fields);
            set_field(&mut all, part, Json::Obj(opened));
            proof {
                lemma_object_view(all);
            }
            (Json::Obj(all), error)
        },
        _ => (choice.copy(), None),
    }
}

/// Opens the sealed texts of an answer.
pub fn open_answer(answer: &Json, part: &str, secret: &[u8; 32]) -> (r: (Json, Option<String>))
    ensures
        (r.0@, error_text(r.1)) == answer_opened(answer@, part@, secret@),
{
    let fields = match answer {
        Json::Obj(f) => f,
        _ => {
            return (answer.copy(), None);
        },
    };
    proof {
        lemma_object_view(*fields);
    }
    let at = match find_key(fields, "choices") {
        Some(i) => i,
        None => {
            return (answer.copy(), None);
        },
    };
    let choices = match &fields[at].1 {
        Json::Arr(c) => c,
        _ => {
            return (answer.copy(), None);
        },
    };
    let ghost all = values_of(choices@);
    let mut out: Vec<Json> = Vec::new();
    let mut error: Option<String> = None;
    let mut i: usize = 0;
    proof {
        lemma_array_view(*choices);
        assert(all.take(0) =~= seq![]);
    }
    while i < choices.len()
        invariant
            i <= choices@.len(),
            all == values_of(choices@),
            out@.len() == i,
            forall|j: int|
                0 <= j < i ==> (#[trigger] out@[j])@ == choice_opened(all[j], part@, secret@).0,
            error_text(error) == opening_error(all.take(i as int), part@, secret@),
        decreases choices@.len() - i,
    {
        proof {
            assert(all.take(i + 1).drop_last() =~= all.take(i as int));
            assert(all.take(i + 1).last() == choices@[i as int]@);
        }
        let (opened, e) = open_choice(&choices[i], part, secret);
        out.push(opened);
        if let Some(m) = e {
            error = Some(m);
        }
        i = i + 1;
    }
    let mut whole = copy_fields(fields);
    proof {
        assert(all.take(all.len() as int) =~= all);
        lemma_array_view(out);
        assert(values_of(out@) =~= choices_opened(all, part@, secret@));
    }
    set_field(&mut whole, "choices", Json::Arr(out));
    proof {
        lemma_object_view(whole);
    }
    (Json::Obj(whole), error)
}

// ---------------------------------------------------------------------------
// Lines of a stream
// ---------------------------------------------------------------------------

/// What to do after a line of a stream.
pub enum NearStep {
    /// Nothing.
    Skip,
    /// Pass this event on, once made fit.
    Event(Json),
    /// The provider failed: say why, and end the stream.
    Fail(String),
    /// The stream is at its end.
    Done,
}

/// What a step says.
pub enum NearStepKind {
    Skip,
    Event(JsonValue),
    Fail(Seq<char>),
    Done,
}

impl NearStep {
    /// What the step says.
    pub open spec fn view(&self) -> NearStepKind {
        match *self {
            NearStep::Skip => NearStepKind::Skip,
            NearStep::Event(j) => NearStepKind::Event(j@),
            NearStep::Fail(s) => NearStepKind::Fail(s@),
            NearStep::Done => NearStepKind::Done,
        }
    }
}

/// What an error says in an answer that holds one, or what stands for it.
pub open spec fn error_said(answer: JsonValue, otherwise: Seq<char>) -> Seq<char> {
    match answer.get("error"@) {
        Some(e) => match text_at(e, "message"@) {
            Some(m) => m,
            None => otherwise,
        },
        None => otherwise,
    }
}

/// What is said of a line that is no answer, where nothing else is.
pub open spec fn corrupt_line() -> Seq<char> {
    "Corrupt or invalid response from downstream provider."@
}

/// What a line means. `read` is its content, read as JSON, or why it cannot be read. In
/// passing, nothing is opened.
pub open spec fn near_step(
    line: LineKind,
    read: Result<JsonValue, Seq<char>>,
    secret: Seq<u8>,
    passing: bool,
) -> NearStepKind {
    match (line, read) {
        (LineKind::Nothing, _) => NearStepKind::Skip,
        (LineKind::Done, _) => NearStepKind::Done,
        (LineKind::Data(_), Err(e)) => NearStepKind::Fail("Corrupt JSON in stream: "@ + e),
        (LineKind::Data(_), Ok(j)) => if j.get("error"@) is Some {
            NearStepKind::Fail(error_said(j, corrupt_line()))
        } else if passing {
            NearStepKind::Event(j)
        } else {
            match answer_opened(j, "delta"@, secret) {
                (_, Some(e)) => NearStepKind::Fail(e),
                (opened, None) => NearStepKind::Event(opened),
            }
        },
        (LineKind::Bare(_), Ok(j)) => if j.get("error"@) is Some {
            NearStepKind::Fail(error_said(j, corrupt_line()))
        } else {
            NearStepKind::Skip
        },
        (LineKind::Bare(_), Err(_)) => NearStepKind::Skip,
        (LineKind::Other(t), _) => NearStepKind::Fail("Invalid stream protocol line: "@ + t),
    }
}

/// What is read of a line.
pub open spec fn read_of(read: Result<Json, String>) -> Result<JsonValue, Seq<char>> {
    match read {
        Ok(j) => Ok(j@),
        Err(e) => Err(e@),
    }
}

fn said_error(answer: &Json, otherwise: &str) -> (r: String)
    ensures
        r@ == error_said(answer@, otherwise@),
{
    match answer.get("error") {
        Some(e) => match e.text_at("message") {
            Some(m) => m.clone(),
            None => otherwise.to_string(),
        },
        None => otherwise.to_string(),
    }
}

/// Decides what a line means.
pub fn on_near_line(
    line: &Line,
    read: &Result<Json, String>,
    secret: &[u8; 32],
    passing: bool,
) -> (r: NearStep)
    ensures
        r@ == near_step(line@, read_of(*read), secret@, passing),
{
    match line {
        Line::Nothing => NearStep::Skip,
        Line::Done => NearStep::Done,
        Line::Data(_) => match read {
            Err(e) => NearStep::Fail(text::cat2("Corrupt JSON in stream: ", e.as_str())),
            Ok(j) => match j.get("error") {
                Some(_) => NearStep::Fail(
                    said_error(j, "Corrupt or invalid response from downstream provider."),
                ),
                None => {
                    if passing {
                        NearStep::Event(j.copy())
                    } else {
                        let (opened, error) = open_answer(j, "delta", secret);
                        match error {
                            Some(e) => NearStep::Fail(e),
                            None => NearStep::Event(opened),
                        }
                    }
                },
            },
        },
        Line::Bare(_) => match read {
            Ok(j) => match j.get("error") {
                Some(_) => NearStep::Fail(
                    said_error(j, "Corrupt or invalid response from downstream provider."),
                ),
                None => NearStep::Skip,
            },
            Err(_) => NearStep::Skip,
        },
        Line::Other(t) => NearStep::Fail(
            text::cat2("Invalid stream protocol line: ", t.as_str()),
        ),
    }
}

/// Where a client speaks to an enclave of its own, every event that is no error is passed on
/// as it came.
pub proof fn law_passing_touches_nothing(content: Seq<char>, event: JsonValue, secret: Seq<u8>)
    requires
        event.get("error"@) is None,
    ensures
        near_step(LineKind::Data(content), Ok(event), secret, true) == NearStepKind::Event(event),
{
}

/// What becomes of an answer that is no stream: its error, or itself with its messages
/// opened. A text that cannot be opened stays as it is.
pub open spec fn near_answer_outcome(answer: JsonValue, secret: Seq<u8>, passing: bool) -> Result<
    JsonValue,
    Seq<char>,
> {
    if answer.get("error"@) is Some {
        Err(error_said(answer, "Upstream error response"@))
    } else if passing {
        Ok(answer)
    } else {
        Ok(answer_opened(answer, "message"@, secret).0)
    }
}

/// Reads an answer that is no stream.
pub fn read_near_answer(answer: &Json, secret: &[u8; 32], passing: bool) -> (r: Result<Json, String>)
    ensures
        read_of(r) == near_answer_outcome(answer@, secret@, passing),
{
    match answer.get("error") {
        Some(_) => Err(said_error(answer, "Upstream error response")),
        None => {
            if passing {
                Ok(answer.copy())
            } else {
                let (opened, _) = open_answer(answer, "message", secret);
                Ok(opened)
            }
        },
    }
}

/// An error, as the client is told of it.
pub open spec fn unavailable_value(message: Seq<char>) -> JsonValue {
    JsonValue::Obj(
        seq![
            (
                "error"@,
                JsonValue::Obj(
                    seq![
                        ("message"@, JsonValue::Str(message)),
                        ("type"@, JsonValue::Str("service_unavailable"@)),
                        ("param"@, JsonValue::Null),
                        ("code"@, JsonValue::Str("provider_unavailable"@)),
                    ],
                ),
            ),
        ],
    )
}

/// Puts an error together, as the client is told of it.
pub fn unavailable(message: &str) -> (r: Json)
    ensures
        r@ == unavailable_value(message@),
{
    let mut inner: Vec<(String, Json)> = Vec::new();
    inner.push(("message".to_string(), Json::Str(message.to_string())));
    inner.push(("type".to_string(), Json::Str("service_unavailable".to_string())));
    inner.push(("param".to_string(), Json::Null));
    inner.push(("code".to_string(), Json::Str("provider_unavailable".to_string())));
    proof {
        lemma_object_view(inner);
        assert(fields_of(inner@) =~= seq![
            ("message"@, JsonValue::Str(message@)),
            ("type"@, JsonValue::Str("service_unavailable"@)),
            ("param"@, JsonValue::Null),
            ("code"@, JsonValue::Str("provider_unavailable"@)),
        ]);
    }
    let ghost said = Json::Obj(inner)@;
    let mut outer: Vec<(String, Json)> = Vec::new();
    outer.push(("error".to_string(), Json::Obj(inner)));
    proof {
        lemma_object_view(outer);
        assert(fields_of(outer@) =~= seq![("error"@, said)]);
    }
    Json::Obj(outer)
}

/// What the client is told of a provider whose stream makes no sense.
pub fn stream_failure(provider_id: &str, error: &str) -> (r: Json)
    ensures
        r@ == unavailable_value(
            "Downstream provider '"@ + provider_id@ + "' is temporarily unavailable. Error: "@
                + error@,
        ),
{
    let message = text::cat4(
        "Downstream provider '",
        provider_id,
        "' is temporarily unavailable. Error: ",
        error,
    );
    unavailable(message.as_str())
}

/// What the client is told of a provider whose stream breaks off.
pub fn read_failure(provider_id: &str, error: &str) -> (r: Json)
    ensures
        r@ == unavailable_value(
            "Downstream provider '"@ + provider_id@
                + "' is temporarily unavailable. Stream read error: "@ + error@,
        ),
{
    let message = text::cat4(
        "Downstream provider '",
        provider_id,
        "' is temporarily unavailable. Stream read error: ",
        error,
    );
    unavailable(message.as_str())
}

// ---------------------------------------------------------------------------
// Requests
// ---------------------------------------------------------------------------

/// Whether a sealed text is a message's content, sealed to a public key: whoever owns the key
/// reads the content.
pub open spec fn is_sealed_to(sealed: Seq<char>, content: Seq<char>, recipient: Seq<u8>) -> bool {
    forall|secret: Seq<u8>|
        secret.len() == 32 && x25519_public_of(secret) == recipient ==> #[trigger] v2_outcome(
            sealed,
            secret,
        ) == Ok::<Seq<char>, Seq<char>>(content)
}

/// Whether the first `n` of some messages have been sealed to a public key, each under its
/// role, and the others stayed as they were.
pub open spec fn first_sealed(
    before: Seq<Message>,
    after: Seq<Message>,
    n: int,
    recipient: Seq<u8>,
) -> bool {
    &&& after.len() == before.len()
    &&& forall|i: int|
        0 <= i < n ==> {
            &&& (#[trigger] after[i]).role@ == before[i].role@
            &&& encode_utf8(before[i].content@).len() <= MAX_PLAIN
            &&& is_sealed_to(after[i].content@, before[i].content@, recipient)
        }
    &&& forall|i: int| n <= i < before.len() ==> (#[trigger] after[i]) == before[i]
}

/// The place of the first message from `i` on that could not be sealed; their number where all
/// could.
pub open spec fn first_refused(sealed: Seq<Result<String, String>>, i: int) -> int
    decreases sealed.len() - i,
{
    if i < 0 || i >= sealed.len() || sealed[i] is Err {
        i
    } else {
        first_refused(sealed, i + 1)
    }
}

/// Whether the first `n` of some messages have what sealing them gave for their content, each
/// under its role, and the others stayed as they were.
pub open spec fn first_put(
    before: Seq<Message>,
    after: Seq<Message>,
    n: int,
    sealed: Seq<Result<String, String>>,
) -> bool {
    &&& after.len() == before.len()
    &&& forall|i: int|
        0 <= i < n ==> {
            &&& (#[trigger] after[i]).role@ == before[i].role@
            &&& sealed[i] is Ok
            &&& after[i].content@ == sealed[i]->Ok_0@
        }
    &&& forall|i: int| n <= i < before.len() ==> (#[trigger] after[i]) == before[i]
}

/// Puts in the place of each message's content what sealing it gave. It stops at the first
/// that could not be sealed, and says why. Those before it are replaced and the others stay;
/// the roles stay as they are.
pub fn put_sealed(messages: &mut Vec<Message>, sealed: &Vec<Result<String, String>>) -> (r: Result<
    (),
    String,
>)
    requires
        sealed@.len() <= old(messages)@.len(),
        sealed@.len() == old(messages)@.len() || (sealed@.len() > 0 && sealed@.last() is Err),
    ensures
        first_put(old(messages)@, final(messages)@, first_refused(sealed@, 0), sealed@),
        r is Ok <==> forall|i: int| 0 <= i < sealed@.len() ==> (#[trigger] sealed@[i]) is Ok,
        r is Ok <==> first_refused(sealed@, 0) == old(messages)@.len(),
        r matches Err(e) ==> {
            let n = first_refused(sealed@, 0);
            0 <= n < sealed@.len() && sealed@[n] is Err && e@ == sealed@[n]->Err_0@
        },
{
    let ghost before = messages@;
    let mut i: usize = 0;
    while i < sealed.len()
        invariant
            i <= sealed@.len() <= messages@.len(),
            before == old(messages)@,
            first_refused(sealed@, 0) == first_refused(sealed@, i as int),
            first_put(before, messages@, i as int, sealed@),
            forall|j: int| 0 <= j < i ==> (#[trigger] sealed@[j]) is Ok,
        decreases sealed@.len() - i,
    {
        match &sealed[i] {
            Ok(s) => {
                let role = messages[i].role.clone();
                let content = s.clone();
                let ghost so_far = messages@;
                messages.set(i, Message { role, content });
                proof {
                    assert forall|j: int| 0 <= j < before.len() && j != i implies (
                    #[trigger] messages@[j]) == so_far[j] by {}
                    assert(messages@[i as int].role@ == before[i as int].role@);
                }
            },
            Err(e) => {
                return Err(e.clone());
            },
        }
        i = i + 1;
    }
    Ok(())
}

/// Whether what sealing a message gave is right: its content sealed to a public key, or why it
/// cannot be.
pub open spec fn sealing_gave(
    content: Seq<char>,
    sealed: Result<String, String>,
    recipient: Seq<u8>,
) -> bool {
    match sealed {
        Ok(s) => encode_utf8(content).len() <= MAX_PLAIN && is_sealed_to(s@, content, recipient),
        Err(e) => v2_failure(e@, encode_utf8(content)),
    }
}

/// Seals the contents of messages to a model's public key, one after the other. The roles
/// stay as they are. It stops at the first message that cannot be sealed, and says why.
pub fn encrypt_messages(messages: &mut Vec<Message>, recipient: &[u8; 32]) -> (r: Result<(), String>)
    ensures
        match r {
            Ok(()) => first_sealed(
                old(messages)@,
                final(messages)@,
                old(messages)@.len() as int,
                recipient@,
            ),
            Err(e) => exists|n: int|
                {
                    &&& 0 <= n < old(messages)@.len()
                    &&& #[trigger] first_sealed(old(messages)@, final(messages)@, n, recipient@)
                    &&& v2_failure(e@, encode_utf8(old(messages)@[n].content@))
                },
        },
{
    let ghost before = messages@;
    let mut sealed: Vec<Result<String, String>> = Vec::new();
    let mut going = true;
    let mut i: usize = 0;
    while going && i < messages.len()
        invariant
            i <= messages@.len(),
            messages@ == before,
            before == old(messages)@,
            sealed@.len() == i,
            going || (i > 0 && sealed@.last() is Err),
            forall|j: int|
                0 <= j < i ==> sealing_gave(
                    before[j].content@,
                    #[trigger] sealed@[j],
                    recipient@,
                ),
        decreases messages@.len() - i,
    {
        let gave = v2_encrypt(messages[i].content.as_str().as_bytes(), recipient);
        going = gave.is_ok();
        let ghost given = gave;
        proof {
            let content = before[i as int].content@;
            if let Ok(s) = given {
                assert forall|secret: Seq<u8>|
                    secret.len() == 32 && x25519_public_of(secret) == recipient@ implies (
                #[trigger] v2_outcome(s@, secret)) == Ok::<Seq<char>, Seq<char>>(content) by {
                    assert(encode_utf8(content) == encode_utf8(messages@[i as int].content@));
                }
            }
            assert(sealing_gave(content, given, recipient@));
        }
        sealed.push(gave);
        i = i + 1;
    }
    let r = put_sealed(messages, &sealed);
    proof {
        let n = first_refused(sealed@, 0);
        lemma_first_refused(sealed@, 0);
        assert(first_sealed(old(messages)@, messages@, n, recipient@)) by {
            assert forall|j: int| 0 <= j < n implies {
                &&& (#[trigger] messages@[j]).role@ == before[j].role@
                &&& encode_utf8(before[j].content@).len() <= MAX_PLAIN
                &&& is_sealed_to(messages@[j].content@, before[j].content@, recipient@)
            } by {
                assert(messages@[j].role@ == before[j].role@);
                assert(messages@[j].content@ == sealed@[j]->Ok_0@);
                assert(sealing_gave(before[j].content@, sealed@[j], recipient@));
            }
        }
        if r is Err {
            assert(sealing_gave(before[n].content@, sealed@[n], recipient@));
        }
    }
    r
}

proof fn lemma_first_refused(sealed: Seq<Result<String, String>>, i: int)
    requires
        0 <= i <= sealed.len(),
    ensures
        i <= first_refused(sealed, i) <= sealed.len(),
    decreases sealed.len() - i,
{
    if i < sealed.len() && sealed[i] is Ok {
        lemma_first_refused(sealed, i + 1);
    }
}

/// Whether nothing is opened here: the client shows a key of its own, and there is no session.
pub fn skips_decryption(client_pub_hex: &str, secret: &[u8; 32]) -> (r: bool)
    ensures
        r == (client_pub_hex@.len() > 0 && forall|i: int| 0 <= i < 32 ==> #[trigger] secret@[i] == 0),
{
    let mut i: usize = 0;
    while i < 32
        invariant
            i <= 32,
            forall|j: int| 0 <= j < i ==> #[trigger] secret@[j] == 0,
        decreases 32 - i,
    {
        if secret[i] != 0 {
            return false;
        }
        i = i + 1;
    }
    !client_pub_hex.is_empty()
}

} // verus!
