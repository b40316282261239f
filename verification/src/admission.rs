//! Admitting a request: who may ask, and opening what was encrypted end to end.

use vstd::prelude::*;

use crate::bytes::array_at;
use crate::chat::default_switch;
use crate::chat::said_in;
use crate::chat::same_wishes;
use crate::chat::switch_under_encryption;
use crate::chat::switches_text;
use crate::chat::toggles_aad;
use crate::chat::ChatCompletionRequest;
use crate::chat::Message;
use crate::chat::Said;
use crate::crypto_e2ee::decrypt_ticket;
use crate::crypto_e2ee::message_outcome;
use crate::crypto_e2ee::ticket_outcome;
use crate::crypto_e2ee::E2eeSession;
use crate::crypto_e2ee::TicketSecrets;
use crate::json::fields_of;
use crate::json::lemma_object_view;
use crate::json::Json;
use crate::json::JsonValue;
use crate::primitives::base64_decode;
use crate::primitives::base64_decoded;
use crate::primitives::x25519_shared_of;
use crate::table;
use crate::table::entries;
use crate::table::entry_of;
use crate::text;
use crate::text::has_prefix;
use crate::text::text_eq;

verus! {

// ---------------------------------------------------------------------------
// Refusing
// ---------------------------------------------------------------------------

/// Why a request is refused: the status, and what the client is told.
pub struct Refusal {
    pub status: u16,
    pub message: String,
}

/// What a refusal says.
#[verifier::ext_equal]
pub struct Refused {
    pub status: u16,
    pub message: Seq<char>,
}

impl Refusal {
    /// What the refusal says.
    pub open spec fn view(&self) -> Refused {
        Refused { status: self.status, message: self.message@ }
    }
}

/// Refuses with a status and a text.
pub fn refuse(status: u16, message: &str) -> (r: Refusal)
    ensures
        r@ == (Refused { status, message: message@ }),
{
    Refusal { status, message: message.to_string() }
}

/// What the client of a refused request is told.
pub open spec fn error_value(message: Seq<char>) -> JsonValue {
    JsonValue::Obj(
        seq![
            (
                "error"@,
                JsonValue::Obj(
                    seq![
                        ("message"@, JsonValue::Str(message)),
                        ("type"@, JsonValue::Str("invalid_request_error"@)),
                        ("param"@, JsonValue::Null),
                        ("code"@, JsonValue::Null),
                    ],
                ),
            ),
        ],
    )
}

/// Puts together what the client of a refused request is told.
pub fn json_error(message: &str) -> (r: Json)
    ensures
        r@ == error_value(message@),
{
    let mut inner: Vec<(String, Json)> = Vec::new();
    inner.push(("message".to_string(), Json::Str(message.to_string())));
    inner.push(("type".to_string(), Json::Str("invalid_request_error".to_string())));
    inner.push(("param".to_string(), Json::Null));
    inner.push(("code".to_string(), Json::Null));
    proof {
        lemma_object_view(inner);
        assert(fields_of(inner@) =~= seq![
            ("message"@, JsonValue::Str(message@)),
            ("type"@, JsonValue::Str("invalid_request_error"@)),
            ("param"@, JsonValue::Null),
            ("code"@, JsonValue::Null),
        ]);
    }
    let ghost said = Json::Obj(inner)@;
    let mut outer: Vec<(String, Json)> = Vec::new();
    outer.push(("error".to_string(), Json::Obj(inner)));
    proof {
        lemma_object_view(outer);
        assert(fields_of(outer@) =~= seq![("error"@, said)]);
    }
    Json::Obj(outer)
}

// ---------------------------------------------------------------------------
// Who may ask
// ---------------------------------------------------------------------------

/// Whether a request names a bearer.
pub open spec fn names_bearer(headers: Seq<(Seq<char>, Seq<char>)>) -> bool {
    match entry_of(headers, "authorization"@) {
        Some(v) => has_prefix(v, "Bearer "@),
        None => false,
    }
}

/// Admits a request that names a bearer, and no other.
pub fn check_bearer(headers: &Vec<(String, String)>) -> (r: Result<(), Refusal>)
    ensures
        r is Ok <==> names_bearer(entries(headers@)),
        r matches Err(e) ==> e@ == (Refused {
            status: 401,
            message: "Missing or invalid Authorization header"@,
        }),
{
    match table::lookup(headers, "authorization") {
        Some(v) => {
            if text::starts_with(v.as_str(), "Bearer ") {
                return Ok(());
            }
        },
        None => {
            proof {
                reveal_strlit("Bearer ");
            }
        },
    }
    Err(refuse(401, "Missing or invalid Authorization header"))
}

/// Whether a header has a value.
pub open spec fn header_is(
    headers: Seq<(Seq<char>, Seq<char>)>,
    name: Seq<char>,
    value: Seq<char>,
) -> bool {
    entry_of(headers, name) == Some(value)
}

/// Whether a header has a value.
pub fn has_header(headers: &Vec<(String, String)>, name: &str, value: &str) -> (r: bool)
    ensures
        r == header_is(entries(headers@), name@, value@),
{
    match table::lookup(headers, name) {
        Some(v) => text_eq(v.as_str(), value),
        None => false,
    }
}

// ---------------------------------------------------------------------------
// End-to-end encryption
// ---------------------------------------------------------------------------

/// What comes of the keys that a client offers.
pub enum Exchange {
    /// None are offered.
    Absent,
    /// The ticket is not one of ours, or no longer.
    BadTicket,
    /// The client's public key is none.
    BadKey,
    /// The secret key of the ticket, and the client's public key.
    Agreed(Seq<u8>, Seq<u8>),
}

/// What comes of the keys that a client offers.
pub open spec fn exchange_of(
    headers: Seq<(Seq<char>, Seq<char>)>,
    current: Seq<u8>,
    previous: Seq<u8>,
) -> Exchange {
    match (
        entry_of(headers, "x-client-pub-key"@),
        entry_of(headers, "x-server-ticket"@),
    ) {
        (Some(public), Some(ticket)) => if header_is(headers, "x-kx-algo"@, "X25519"@) {
            match ticket_outcome(current, previous, ticket) {
                Err(_) => Exchange::BadTicket,
                Ok(secret) => match base64_decoded(public) {
                    Some(b) => if b.len() == 32 {
                        Exchange::Agreed(secret, b)
                    } else {
                        Exchange::BadKey
                    },
                    None => Exchange::BadKey,
                },
            }
        } else {
            Exchange::Absent
        },
        _ => Exchange::Absent,
    }
}

/// What a message of an encrypted request says, or why it cannot be read.
pub open spec fn message_read(
    shared: Seq<u8>,
    client: Seq<u8>,
    model: Seq<char>,
    messages: Seq<Said>,
    toggles: Seq<char>,
    i: int,
) -> Result<Seq<char>, Seq<char>> {
    message_outcome(
        shared,
        client,
        model,
        i as nat,
        messages[i].role,
        messages[i].content,
        toggles,
    )
}

/// Whether all messages of an encrypted request can be read.
pub open spec fn all_read(
    shared: Seq<u8>,
    client: Seq<u8>,
    model: Seq<char>,
    messages: Seq<Said>,
    toggles: Seq<char>,
) -> bool {
    forall|i: int|
        0 <= i < messages.len() ==> (#[trigger] message_read(
            shared,
            client,
            model,
            messages,
            toggles,
            i,
        )) is Ok
}

/// The messages of an encrypted request, read.
pub open spec fn messages_read(
    shared: Seq<u8>,
    client: Seq<u8>,
    model: Seq<char>,
    messages: Seq<Said>,
    toggles: Seq<char>,
) -> Seq<Said> {
    Seq::new(
        messages.len(),
        |i: int|
            Said {
                role: messages[i].role,
                content: message_read(shared, client, model, messages, toggles, i)->Ok_0,
            },
    )
}

/// What is admitted: the secret shared with the client, the client's key and the model that
/// the session is bound to, where the request was encrypted, and the messages in the clear.
#[verifier::ext_equal]
pub struct Admitted {
    pub session: Option<(Seq<u8>, Seq<u8>, Seq<char>)>,
    pub messages: Seq<Said>,
}

/// What becomes of a request. Where the client demands encryption, nothing goes on without.
pub open spec fn request_outcome(
    headers: Seq<(Seq<char>, Seq<char>)>,
    current: Seq<u8>,
    previous: Seq<u8>,
    model: Seq<char>,
    messages: Seq<Said>,
    toggles: Seq<char>,
) -> Result<Admitted, Refused> {
    match exchange_of(headers, current, previous) {
        Exchange::BadTicket => Err(
            Refused { status: 401, message: "E2EE Ticket expired or invalid."@ },
        ),
        Exchange::Agreed(secret, client) => {
            let shared = x25519_shared_of(secret, client);
            if all_read(shared, client, model, messages, toggles) {
                Ok(
                    Admitted {
                        session: Some((shared, client, model)),
                        messages: messages_read(shared, client, model, messages, toggles),
                    },
                )
            } else {
                Err(Refused { status: 400, message: "E2EE Decryption of messages failed."@ })
            }
        },
        _ => if header_is(headers, "x-e2ee-enabled"@, "true"@) {
            Err(
                Refused {
                    status: 400,
                    message: "E2EE is strictly enforced but decryption or key exchange failed/was not provided."@,
                },
            )
        } else {
            Ok(Admitted { session: None, messages })
        },
    }
}

/// The secret, the client's key and the model of a session, if there is one.
pub open spec fn session_facts(s: Option<E2eeSession>) -> Option<(Seq<u8>, Seq<u8>, Seq<char>)> {
    match s {
        Some(x) => Some((x.shared(), x.client_key(), x.model())),
        None => None,
    }
}

fn read_messages(session: &E2eeSession, messages: &Vec<Message>, toggles: &str) -> (r: Option<
    Vec<Message>,
>)
    ensures
        match r {
            Some(v) => all_read(
                session.shared(),
                session.client_key(),
                session.model(),
                said_in(messages@),
                toggles@,
            ) && said_in(v@) == messages_read(
                session.shared(),
                session.client_key(),
                session.model(),
                said_in(messages@),
                toggles@,
            ),
            None => !all_read(
                session.shared(),
                session.client_key(),
                session.model(),
                said_in(messages@),
                toggles@,
            ),
        },
{
    let ghost all = said_in(messages@);
    let ghost s = session.shared();
    let ghost c = session.client_key();
    let ghost m = session.model();
    let mut out: Vec<Message> = Vec::new();
    let mut i: usize = 0;
    while i < messages.len()
        invariant
            i <= messages@.len(),
            all == said_in(messages@),
            s == session.shared(),
            c == session.client_key(),
            m == session.model(),
            out@.len() == i,
            forall|j: int|
                0 <= j < i ==> (#[trigger] message_read(s, c, m, all, toggles@, j)) is Ok,
            forall|j: int|
                0 <= j < i ==> (#[trigger] out@[j]).deep_view() == messages_read(
                    s,
                    c,
                    m,
                    all,
                    toggles@,
                )[j],
        decreases messages@.len() - i,
    {
        proof {
            assert(all[i as int] == messages@[i as int].deep_view());
        }
        match session.decrypt_message(
            i,
            messages[i].role.as_str(),
            messages[i].content.as_str(),
            toggles,
        ) {
            Ok(plain) => {
                proof {
                    assert(message_read(s, c, m, all, toggles@, i as int) is Ok);
                }
                out.push(Message { role: messages[i].role.clone(), content: plain });
            },
            Err(_) => {
                proof {
                    assert(!(message_read(s, c, m, all, toggles@, i as int) is Ok));
                }
                return None;
            },
        }
        i = i + 1;
    }
    proof {
        assert(said_in(out@) =~= messages_read(s, c, m, all, toggles@));
    }
    Some(out)
}

/// Opens a request: reads its messages, where they are encrypted, and turns on the switches
/// that an encrypted request leaves open.
pub fn open_request(
    request: &mut ChatCompletionRequest,
    headers: &Vec<(String, String)>,
    secrets: &TicketSecrets,
) -> (r: Result<Option<E2eeSession>, Refusal>)
    ensures
        match r {
            Ok(session) => request_outcome(
                entries(headers@),
                secrets.current@,
                secrets.previous@,
                old(request).model@,
                said_in(old(request).messages@),
                switches_text(old(request).zdr, old(request).zds, old(request).tee),
            ) == Ok::<Admitted, Refused>(
                Admitted {
                    session: session_facts(session),
                    messages: said_in(final(request).messages@),
                },
            ),
            Err(e) => request_outcome(
                entries(headers@),
                secrets.current@,
                secrets.previous@,
                old(request).model@,
                said_in(old(request).messages@),
                switches_text(old(request).zdr, old(request).zds, old(request).tee),
            ) == Err::<Admitted, Refused>(e@) && final(request).messages == old(request).messages,
        },
        same_wishes(*final(request), *old(request)),
        final(request).zdr == switch_under_encryption(
            old(request).zdr,
            header_is(entries(headers@), "x-e2ee-enabled"@, "true"@),
        ),
        final(request).zds == switch_under_encryption(
            old(request).zds,
            header_is(entries(headers@), "x-e2ee-enabled"@, "true"@),
        ),
        final(request).tee == switch_under_encryption(
            old(request).tee,
            header_is(entries(headers@), "x-e2ee-enabled"@, "true"@),
        ),
        final(request).model == old(request).model,
        final(request).stream_options == old(request).stream_options,
        final(request).store == old(request).store,
        final(request).cache_prompt == old(request).cache_prompt,
{
    let enabled = has_header(headers, "x-e2ee-enabled", "true");
    let toggles = toggles_aad(request.zdr, request.zds, request.tee);
    request.zdr = default_switch(request.zdr, enabled);
    request.zds = default_switch(request.zds, enabled);
    request.tee = default_switch(request.tee, enabled);
    let offered = has_header(headers, "x-kx-algo", "X25519");
    let public = table::lookup(headers, "x-client-pub-key");
    let ticket = table::lookup(headers, "x-server-ticket");
    if offered {
        if let (Some(public), Some(ticket)) = (public, ticket) {
            let secret = match decrypt_ticket(secrets, ticket.as_str()) {
                Ok(s) => s,
                Err(_) => {
                    return Err(refuse(401, "E2EE Ticket expired or invalid."));
                },
            };
            if let Some(bytes) = base64_decode(public.as_str()) {
                if bytes.len() == 32 {
                    let client: [u8; 32] = array_at(bytes.as_slice(), 0);
                    proof {
                        assert(client@ =~= bytes@);
                    }
                    let session = E2eeSession::new(secret, &client, request.model.clone());
                    return match read_messages(&session, &request.messages, toggles.as_str()) {
                        Some(v) => {
                            request.messages = v;
                            Ok(Some(session))
                        },
                        None => Err(refuse(400, "E2EE Decryption of messages failed.")),
                    };
                }
            }
        }
    }
    if enabled {
        return Err(
            refuse(
                400,
                "E2EE is strictly enforced but decryption or key exchange failed/was not provided.",
            ),
        );
    }
    Ok(None)
}

/// Where a client demands encryption, either a secret is shared with it or the request is
/// refused; and no message goes on that was not bound to the switches as the client set them.
pub proof fn law_encryption_is_strict(
    headers: Seq<(Seq<char>, Seq<char>)>,
    current: Seq<u8>,
    previous: Seq<u8>,
    model: Seq<char>,
    messages: Seq<Said>,
    toggles: Seq<char>,
)
    requires
        header_is(headers, "x-e2ee-enabled"@, "true"@),
        request_outcome(headers, current, previous, model, messages, toggles) is Ok,
    ensures
        ({
            let admitted = request_outcome(
                headers,
                current,
                previous,
                model,
                messages,
                toggles,
            )->Ok_0;
            admitted.session is Some && admitted.messages.len() == messages.len() && forall|i: int|
                0 <= i < messages.len() ==> message_outcome(
                    (admitted.session->0).0,
                    (admitted.session->0).1,
                    model,
                    i as nat,
                    messages[i].role,
                    messages[i].content,
                    toggles,
                ) == Ok::<Seq<char>, Seq<char>>((#[trigger] admitted.messages[i]).content)
        }),
{
    let admitted = request_outcome(headers, current, previous, model, messages, toggles)->Ok_0;
    let shared = (admitted.session->0).0;
    let client = (admitted.session->0).1;
    assert forall|i: int| 0 <= i < messages.len() implies message_outcome(
        shared,
        client,
        model,
        i as nat,
        messages[i].role,
        messages[i].content,
        toggles,
    ) == Ok::<Seq<char>, Seq<char>>((#[trigger] admitted.messages[i]).content) by {
        assert(message_read(shared, client, model, messages, toggles, i) is Ok);
    }
}

/// The key of a client that speaks to an enclave of its own, if it does, or why the request
/// is refused.
pub open spec fn passthrough_outcome(headers: Seq<(Seq<char>, Seq<char>)>) -> Result<
    Option<Seq<char>>,
    Refused,
> {
    if header_is(headers, "x-nearai-e2ee-enabled"@, "true"@) {
        match entry_of(headers, "x-nearai-client-pub-key"@) {
            Some(k) => Ok(Some(k)),
            None => Err(
                Refused {
                    status: 400,
                    message: "X-NearAI-E2EE-Enabled is true but X-NearAI-Client-Pub-Key is missing"@,
                },
            ),
        }
    } else {
        Ok(None)
    }
}

/// Finds the key of a client that speaks to an enclave of its own.
pub fn passthrough_key(headers: &Vec<(String, String)>) -> (r: Result<Option<String>, Refusal>)
    ensures
        match r {
            Ok(k) => passthrough_outcome(entries(headers@)) == Ok::<Option<Seq<char>>, Refused>(
                match k {
                    Some(s) => Some(s@),
                    None => None,
                },
            ),
            Err(e) => passthrough_outcome(entries(headers@)) == Err::<Option<Seq<char>>, Refused>(
                e@,
            ),
        },
{
    if has_header(headers, "x-nearai-e2ee-enabled", "true") {
        match table::lookup(headers, "x-nearai-client-pub-key") {
            Some(k) => Ok(Some(k.clone())),
            None => Err(
                refuse(
                    400,
                    "X-NearAI-E2EE-Enabled is true but X-NearAI-Client-Pub-Key is missing",
                ),
            ),
        }
    } else {
        Ok(None)
    }
}

} // verus!
