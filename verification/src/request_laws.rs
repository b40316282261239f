//! What becomes of a request, by what its headers say.

use vstd::prelude::*;
use vstd::utf8::encode_utf8;

use crate::admission::error_value;
use crate::admission::message_read;
use crate::admission::names_bearer;
use crate::admission::passthrough_outcome;
use crate::admission::request_outcome;
use crate::admission::Admitted;
use crate::admission::Refused;
use crate::chat::switch_under_encryption;
use crate::chat::switches_text;
use crate::chat::Said;
use crate::crypto_e2ee::message_outcome;
use crate::crypto_e2ee::ticket_outcome;
use crate::crypto_laws::law_messages_open_for_every_role;
use crate::json::JsonValue;
use crate::primitives::base64_decoded;
use crate::primitives::gcm_opened;
use crate::primitives::hkdf_sha256_of;
use crate::primitives::x25519_shared_of;
use crate::table::entry_of;
use crate::table::lemma_place_of;
use crate::text::decimal;

verus! {

/// Whether the first entry of a name in a table has a value.
pub open spec fn first_says<T>(table: Seq<(Seq<char>, T)>, name: Seq<char>, value: T) -> bool {
    exists|i: int|
        0 <= i < table.len() && #[trigger] table[i] == (name, value) && forall|j: int|
            0 <= j < i ==> (#[trigger] table[j]).0 != name
}

/// Whether a table has no entry of a name.
pub open spec fn says_nothing<T>(table: Seq<(Seq<char>, T)>, name: Seq<char>) -> bool {
    forall|j: int| 0 <= j < table.len() ==> (#[trigger] table[j]).0 != name
}

/// A name has the value of its first entry, and none where it has no entry.
pub proof fn law_first_entry_counts<T>(table: Seq<(Seq<char>, T)>, name: Seq<char>, value: T)
    ensures
        first_says(table, name, value) <==> entry_of(table, name) == Some(value),
        says_nothing(table, name) <==> entry_of(table, name) is None,
{
    lemma_place_of(table, name, 0);
    if first_says(table, name, value) {
        let i = choose|i: int|
            0 <= i < table.len() && #[trigger] table[i] == (name, value) && forall|j: int|
                0 <= j < i ==> (#[trigger] table[j]).0 != name;
        assert(table[i].0 == name);
    }
}

/// Only a request whose first authorization is that of a bearer is admitted.
pub proof fn law_only_bearers_are_admitted(headers: Seq<(Seq<char>, Seq<char>)>, token: Seq<char>)
    ensures
        first_says(headers, "authorization"@, "Bearer "@ + token) ==> names_bearer(headers),
        says_nothing(headers, "authorization"@) ==> !names_bearer(headers),
        names_bearer(headers) ==> exists|t: Seq<char>|
            first_says(headers, "authorization"@, #[trigger] ("Bearer "@ + t)),
{
    reveal_strlit("Bearer ");
    let named = "Bearer "@ + token;
    law_first_entry_counts(headers, "authorization"@, named);
    assert(named.subrange(0, 7) =~= "Bearer "@);
    if names_bearer(headers) {
        let v = entry_of(headers, "authorization"@)->0;
        let t = v.skip(7);
        assert("Bearer "@ + t =~= v) by {
            assert(v.subrange(0, 7) == "Bearer "@);
            assert forall|i: int| 0 <= i < 7 implies v[i] == #[trigger] "Bearer "@[i] by {
                assert(v.subrange(0, 7)[i] == v[i]);
            }
        }
        law_first_entry_counts(headers, "authorization"@, "Bearer "@ + t);
    }
}

/// Whether the headers offer the keys for an encrypted request.
pub open spec fn offers_keys(
    headers: Seq<(Seq<char>, Seq<char>)>,
    public: Seq<char>,
    ticket: Seq<char>,
) -> bool {
    &&& first_says(headers, "x-kx-algo"@, "X25519"@)
    &&& first_says(headers, "x-client-pub-key"@, public)
    &&& first_says(headers, "x-server-ticket"@, ticket)
}

/// Whether one of the headers is missing with which keys are offered.
pub open spec fn offers_no_keys(headers: Seq<(Seq<char>, Seq<char>)>) -> bool {
    ||| says_nothing(headers, "x-client-pub-key"@)
    ||| says_nothing(headers, "x-server-ticket"@)
    ||| !first_says(headers, "x-kx-algo"@, "X25519"@)
}

/// Whether a sealed message opens to a text: with the key for its place and role, bound to
/// the client's key, the model, the role and the switches.
pub open spec fn opens_to(
    shared: Seq<u8>,
    client: Seq<u8>,
    model: Seq<char>,
    toggles: Seq<char>,
    place: int,
    message: Said,
    said: Seq<char>,
) -> bool {
    &&& base64_decoded(message.content) matches Some(b) && b.len() >= 28 && gcm_opened(
        hkdf_sha256_of(
            seq![],
            shared,
            encode_utf8("message_"@ + decimal(place as nat) + "_"@ + message.role),
        ),
        b.take(12),
        client + encode_utf8(model) + encode_utf8(message.role) + encode_utf8(toggles),
        b.skip(12),
    ) == Some(encode_utf8(said))
}

/// A request that offers a key and a ticket of ours, and whose messages open, is admitted
/// with all of them opened, each for its own place and role, in a session of the secret that
/// the ticket's key and the client's key agree on.
pub proof fn law_sealed_requests_are_opened(
    headers: Seq<(Seq<char>, Seq<char>)>,
    current: Seq<u8>,
    previous: Seq<u8>,
    model: Seq<char>,
    messages: Seq<Said>,
    toggles: Seq<char>,
    public: Seq<char>,
    ticket: Seq<char>,
    secret: Seq<u8>,
    client: Seq<u8>,
    said: Seq<Seq<char>>,
)
    requires
        offers_keys(headers, public, ticket),
        ticket_outcome(current, previous, ticket) == Ok::<Seq<u8>, Seq<char>>(secret),
        base64_decoded(public) == Some(client),
        client.len() == 32,
        said.len() == messages.len(),
        forall|i: int|
            0 <= i < messages.len() ==> opens_to(
                x25519_shared_of(secret, client),
                client,
                model,
                toggles,
                i,
                messages[i],
                #[trigger] said[i],
            ),
    ensures
        ({
            let r = request_outcome(headers, current, previous, model, messages, toggles);
            &&& r is Ok
            &&& r->Ok_0.session == Some((x25519_shared_of(secret, client), client, model))
            &&& r->Ok_0.messages.len() == messages.len()
            &&& forall|i: int|
                0 <= i < messages.len() ==> (#[trigger] r->Ok_0.messages[i]) == (Said {
                    role: messages[i].role,
                    content: said[i],
                })
        }),
{
    law_first_entry_counts(headers, "x-kx-algo"@, "X25519"@);
    law_first_entry_counts(headers, "x-client-pub-key"@, public);
    law_first_entry_counts(headers, "x-server-ticket"@, ticket);
    let shared = x25519_shared_of(secret, client);
    assert forall|i: int| 0 <= i < messages.len() implies #[trigger] message_read(
        shared,
        client,
        model,
        messages,
        toggles,
        i,
    ) == Ok::<Seq<char>, Seq<char>>(said[i]) by {
        let b = base64_decoded(messages[i].content)->0;
        assert(opens_to(shared, client, model, toggles, i, messages[i], said[i]));
        assert(b =~= b.take(12) + b.skip(12));
        law_messages_open_for_every_role(
            shared,
            client,
            model,
            i as nat,
            messages[i].role,
            toggles,
            messages[i].content,
            b.take(12),
            b.skip(12),
            said[i],
        );
    }
    let r = request_outcome(headers, current, previous, model, messages, toggles);
    assert forall|i: int| 0 <= i < messages.len() implies (#[trigger] r->Ok_0.messages[i]) == (Said {
        role: messages[i].role,
        content: said[i],
    }) by {
        assert(message_read(shared, client, model, messages, toggles, i) == Ok::<
            Seq<char>,
            Seq<char>,
        >(said[i]));
    }
}

/// A request with a ticket that is not ours, or with one message that does not open, is
/// refused as a whole.
pub proof fn law_unreadable_requests_are_refused(
    headers: Seq<(Seq<char>, Seq<char>)>,
    current: Seq<u8>,
    previous: Seq<u8>,
    model: Seq<char>,
    messages: Seq<Said>,
    toggles: Seq<char>,
    public: Seq<char>,
    ticket: Seq<char>,
    i: int,
)
    requires
        offers_keys(headers, public, ticket),
    ensures
        ({
            let r = request_outcome(headers, current, previous, model, messages, toggles);
            match ticket_outcome(current, previous, ticket) {
                Err(_) => r == Err::<Admitted, Refused>(
                    Refused { status: 401, message: "E2EE Ticket expired or invalid."@ },
                ),
                Ok(secret) => base64_decoded(public) matches Some(client) && client.len() == 32 && 0
                    <= i < messages.len() && message_outcome(
                    x25519_shared_of(secret, client),
                    client,
                    model,
                    i as nat,
                    messages[i].role,
                    messages[i].content,
                    toggles,
                ) is Err ==> r == Err::<Admitted, Refused>(
                    Refused { status: 400, message: "E2EE Decryption of messages failed."@ },
                ),
            }
        }),
{
    law_first_entry_counts(headers, "x-kx-algo"@, "X25519"@);
    law_first_entry_counts(headers, "x-client-pub-key"@, public);
    law_first_entry_counts(headers, "x-server-ticket"@, ticket);
    match ticket_outcome(current, previous, ticket) {
        Ok(secret) => {
            let client = base64_decoded(public)->0;
            let shared = x25519_shared_of(secret, client);
            let read = message_read(shared, client, model, messages, toggles, i);
            assert(read == message_outcome(
                shared,
                client,
                model,
                i as nat,
                messages[i].role,
                messages[i].content,
                toggles,
            ));
        },
        Err(_) => {},
    }
}

/// A key of the client's that is none, or not of 32 bytes, is as good as no key.
pub proof fn law_bad_keys_are_no_keys(
    headers: Seq<(Seq<char>, Seq<char>)>,
    current: Seq<u8>,
    previous: Seq<u8>,
    model: Seq<char>,
    messages: Seq<Said>,
    toggles: Seq<char>,
    public: Seq<char>,
    ticket: Seq<char>,
)
    requires
        offers_keys(headers, public, ticket),
        ticket_outcome(current, previous, ticket) is Ok,
        base64_decoded(public) matches Some(b) ==> b.len() != 32,
    ensures
        ({
            let r = request_outcome(headers, current, previous, model, messages, toggles);
            if first_says(headers, "x-e2ee-enabled"@, "true"@) {
                r == Err::<Admitted, Refused>(
                    Refused {
                        status: 400,
                        message: "E2EE is strictly enforced but decryption or key exchange failed/was not provided."@,
                    },
                )
            } else {
                r == Ok::<Admitted, Refused>(Admitted { session: None, messages })
            }
        }),
{
    law_first_entry_counts(headers, "x-kx-algo"@, "X25519"@);
    law_first_entry_counts(headers, "x-client-pub-key"@, public);
    law_first_entry_counts(headers, "x-server-ticket"@, ticket);
    law_first_entry_counts(headers, "x-e2ee-enabled"@, "true"@);
}

/// A request that offers no keys goes on as it is, unless it demands encryption.
pub proof fn law_open_requests_go_on(
    headers: Seq<(Seq<char>, Seq<char>)>,
    current: Seq<u8>,
    previous: Seq<u8>,
    model: Seq<char>,
    messages: Seq<Said>,
    toggles: Seq<char>,
)
    requires
        offers_no_keys(headers),
    ensures
        ({
            let r = request_outcome(headers, current, previous, model, messages, toggles);
            if first_says(headers, "x-e2ee-enabled"@, "true"@) {
                r == Err::<Admitted, Refused>(
                    Refused {
                        status: 400,
                        message: "E2EE is strictly enforced but decryption or key exchange failed/was not provided."@,
                    },
                )
            } else {
                r == Ok::<Admitted, Refused>(Admitted { session: None, messages })
            }
        }),
{
    law_first_entry_counts(headers, "x-kx-algo"@, "X25519"@);
    law_first_entry_counts(headers, "x-client-pub-key"@, ""@);
    law_first_entry_counts(headers, "x-server-ticket"@, ""@);
    law_first_entry_counts(headers, "x-e2ee-enabled"@, "true"@);
}

/// A client that speaks to an enclave of its own has to say with which key; one that does not
/// is asked for none.
pub proof fn law_own_enclaves_need_a_key(headers: Seq<(Seq<char>, Seq<char>)>, key: Seq<char>)
    ensures
        !first_says(headers, "x-nearai-e2ee-enabled"@, "true"@) ==> passthrough_outcome(headers)
            == Ok::<Option<Seq<char>>, Refused>(None),
        first_says(headers, "x-nearai-e2ee-enabled"@, "true"@) && first_says(
            headers,
            "x-nearai-client-pub-key"@,
            key,
        ) ==> passthrough_outcome(headers) == Ok::<Option<Seq<char>>, Refused>(Some(key)),
        first_says(headers, "x-nearai-e2ee-enabled"@, "true"@) && says_nothing(
            headers,
            "x-nearai-client-pub-key"@,
        ) ==> passthrough_outcome(headers) == Err::<Option<Seq<char>>, Refused>(
            Refused {
                status: 400,
                message: "X-NearAI-E2EE-Enabled is true but X-NearAI-Client-Pub-Key is missing"@,
            },
        ),
{
    law_first_entry_counts(headers, "x-nearai-e2ee-enabled"@, "true"@);
    law_first_entry_counts(headers, "x-nearai-client-pub-key"@, key);
}

/// The switches are written down in their order, each that was set with its setting, and
/// nothing of one that was not.
pub proof fn law_switches_are_written_in_order(
    b: bool,
    zdr: Option<bool>,
    zds: Option<bool>,
    tee: Option<bool>,
)
    ensures
        switches_text(None, None, None).len() == 0,
        switches_text(Some(b), zds, tee) == (if b {
            "zdr=true;"@
        } else {
            "zdr=false;"@
        }) + switches_text(None, zds, tee),
        switches_text(None, Some(b), tee) == (if b {
            "zds=true;"@
        } else {
            "zds=false;"@
        }) + switches_text(None, None, tee),
        switches_text(None, None, Some(b)) == (if b {
            "tee=true;"@
        } else {
            "tee=false;"@
        }),
{
    reveal_strlit("");
    reveal_strlit("zdr");
    reveal_strlit("zds");
    reveal_strlit("tee");
    reveal_strlit("=true;");
    reveal_strlit("=false;");
    reveal_strlit("zdr=true;");
    reveal_strlit("zdr=false;");
    reveal_strlit("zds=true;");
    reveal_strlit("zds=false;");
    reveal_strlit("tee=true;");
    reveal_strlit("tee=false;");
    assert(switches_text(None, None, None) =~= seq![]);
    assert("zdr"@ + "=true;"@ =~= "zdr=true;"@);
    assert("zdr"@ + "=false;"@ =~= "zdr=false;"@);
    assert("zds"@ + "=true;"@ =~= "zds=true;"@);
    assert("zds"@ + "=false;"@ =~= "zds=false;"@);
    assert("tee"@ + "=true;"@ =~= "tee=true;"@);
    assert("tee"@ + "=false;"@ =~= "tee=false;"@);
}

/// Encryption turns every switch on that the client left open, and no other; a switch that
/// the client set stays as it was set.
pub proof fn law_encryption_turns_switches_on(b: bool, encrypted: bool)
    ensures
        switch_under_encryption(Some(b), encrypted) == Some(b),
        switch_under_encryption(None, true) == Some(true),
        switch_under_encryption(None, false) is None,
{
}

/// The client of a refused request finds the message, and the kind of error, under "error".
pub proof fn law_errors_carry_their_message(message: Seq<char>)
    ensures
        error_value(message).get("error"@) is Some,
        error_value(message).get("error"@)->0.get("message"@) == Some(JsonValue::Str(message)),
        error_value(message).get("error"@)->0.get("type"@) == Some(
            JsonValue::Str("invalid_request_error"@),
        ),
        error_value(message).get("error"@)->0.get("param"@) == Some(JsonValue::Null),
        error_value(message).get("error"@)->0.get("code"@) == Some(JsonValue::Null),
{
    reveal_strlit("message");
    reveal_strlit("type");
    reveal_strlit("param");
    reveal_strlit("code");
    assert("message"@.len() == 7);
    assert("param"@.len() == 5);
    assert("type"@[0] == 't');
    assert("code"@[0] == 'c');
    let fields = error_value(message)->Obj_0;
    crate::json::lemma_key_at(fields, "error"@, 0);
    assert(fields[0].0 == "error"@);
    let inner = fields[0].1->Obj_0;
    assert(inner[0].0 == "message"@ && inner[1].0 == "type"@ && inner[2].0 == "param"@
        && inner[3].0 == "code"@);
    crate::json::lemma_key_at(inner, "message"@, 0);
    crate::json::lemma_key_at(inner, "type"@, 0);
    crate::json::lemma_key_at(inner, "param"@, 0);
    crate::json::lemma_key_at(inner, "code"@, 0);
}

} // verus!
