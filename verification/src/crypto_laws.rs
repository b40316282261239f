//! What the two ends of an encrypted session derive, spelled out from the outside functions.

use vstd::prelude::*;
use vstd::utf8::encode_utf8;

use crate::crypto_e2ee::chunk_opened;
use crate::crypto_e2ee::chunk_text;
use crate::crypto_e2ee::message_outcome;
use crate::crypto_e2ee::next_key;
use crate::crypto_e2ee::stream_aad;
use crate::crypto_e2ee::stream_key;
use crate::crypto_e2ee::ticket_bytes;
use crate::crypto_e2ee::ticket_outcome;
use crate::primitives::base64_decoded;
use crate::primitives::base64_of;
use crate::primitives::gcm_opened;
use crate::primitives::gcm_sealed;
use crate::primitives::hkdf_sha256_of;
use crate::text::decimal;

verus! {

/// A message of any role opens with the key that is derived for its place and role, and with
/// the binding to the client's key, the model, the role and the switches.
pub proof fn law_messages_open_for_every_role(
    shared: Seq<u8>,
    client_pub: Seq<u8>,
    model: Seq<char>,
    index: nat,
    role: Seq<char>,
    toggles: Seq<char>,
    encrypted: Seq<char>,
    nonce: Seq<u8>,
    sealed: Seq<u8>,
    said: Seq<char>,
)
    requires
        nonce.len() == 12,
        sealed.len() >= 16,
        base64_decoded(encrypted) == Some(nonce + sealed),
        gcm_opened(
            hkdf_sha256_of(
                seq![],
                shared,
                encode_utf8("message_"@ + decimal(index) + "_"@ + role),
            ),
            nonce,
            client_pub + encode_utf8(model) + encode_utf8(role) + encode_utf8(toggles),
            sealed,
        ) == Some(encode_utf8(said)),
    ensures
        message_outcome(shared, client_pub, model, index, role, encrypted, toggles) == Ok::<
            Seq<char>,
            Seq<char>,
        >(said),
{
    assert((nonce + sealed).take(12) =~= nonce);
    assert((nonce + sealed).skip(12) =~= sealed);
    vstd::utf8::encode_utf8_decode_utf8(said);
    vstd::utf8::encode_utf8_valid_utf8(said);
}

/// A message that opens under no such key and binding is refused, and so is one that is too
/// short or no Base64.
pub proof fn law_other_messages_are_refused(
    shared: Seq<u8>,
    client_pub: Seq<u8>,
    model: Seq<char>,
    index: nat,
    role: Seq<char>,
    toggles: Seq<char>,
    encrypted: Seq<char>,
)
    ensures
        match base64_decoded(encrypted) {
            None => message_outcome(shared, client_pub, model, index, role, encrypted, toggles)
                == Err::<Seq<char>, Seq<char>>("Invalid message base64"@),
            Some(payload) => {
                &&& payload.len() < 28 ==> message_outcome(
                    shared,
                    client_pub,
                    model,
                    index,
                    role,
                    encrypted,
                    toggles,
                ) == Err::<Seq<char>, Seq<char>>("Invalid encrypted message length"@)
                &&& payload.len() >= 28 && gcm_opened(
                    hkdf_sha256_of(
                        seq![],
                        shared,
                        encode_utf8("message_"@ + decimal(index) + "_"@ + role),
                    ),
                    payload.take(12),
                    client_pub + encode_utf8(model) + encode_utf8(role) + encode_utf8(toggles),
                    payload.skip(12),
                ) is None ==> message_outcome(
                    shared,
                    client_pub,
                    model,
                    index,
                    role,
                    encrypted,
                    toggles,
                ) == Err::<Seq<char>, Seq<char>>("AES-GCM decryption failed"@)
            },
        },
{
}

/// The keys of a session's pieces: the first is derived from the shared secret, and each one
/// after it from the one before and its number.
pub proof fn law_keys_follow_one_another(shared: Seq<u8>, key: Seq<u8>, n: nat)
    ensures
        stream_key(shared, 0) == hkdf_sha256_of(seq![], shared, encode_utf8("stream_init"@)),
        stream_key(shared, n + 1) == hkdf_sha256_of(
            seq![],
            stream_key(shared, n),
            encode_utf8("stream_chunk_"@ + decimal(n + 1)),
        ),
        next_key(key, n) == hkdf_sha256_of(
            seq![],
            key,
            encode_utf8("stream_chunk_"@ + decimal(n)),
        ),
{
}

/// A piece carries its nonce in front of the ciphertext, and whoever has the key and the
/// binding to the client's key and the model reads it.
pub proof fn law_pieces_are_read(
    key: Seq<u8>,
    nonce: Seq<u8>,
    client_pub: Seq<u8>,
    model: Seq<char>,
    plaintext: Seq<u8>,
)
    requires
        nonce.len() == 12,
        base64_decoded(
            base64_of(
                nonce + gcm_sealed(
                    key,
                    nonce,
                    client_pub + encode_utf8(model) + encode_utf8("stream_response"@),
                    plaintext,
                ),
            ),
        ) == Some(
            nonce + gcm_sealed(
                key,
                nonce,
                client_pub + encode_utf8(model) + encode_utf8("stream_response"@),
                plaintext,
            ),
        ),
        gcm_opened(
            key,
            nonce,
            client_pub + encode_utf8(model) + encode_utf8("stream_response"@),
            gcm_sealed(
                key,
                nonce,
                client_pub + encode_utf8(model) + encode_utf8("stream_response"@),
                plaintext,
            ),
        ) == Some(plaintext),
    ensures
        chunk_text(key, nonce, stream_aad(client_pub, model), plaintext) == base64_of(
            nonce + gcm_sealed(
                key,
                nonce,
                client_pub + encode_utf8(model) + encode_utf8("stream_response"@),
                plaintext,
            ),
        ),
        chunk_opened(
            key,
            stream_aad(client_pub, model),
            chunk_text(key, nonce, stream_aad(client_pub, model), plaintext),
        ) == Some(plaintext),
{
    let sealed = gcm_sealed(key, nonce, stream_aad(client_pub, model), plaintext);
    assert((nonce + sealed).take(12) =~= nonce);
    assert((nonce + sealed).skip(12) =~= sealed);
}

/// A ticket is the nonce and the secret key sealed under the current key, with no binding. It
/// opens under either key of the pair, the current one first, and is refused by both alone.
pub proof fn law_tickets_open_under_either_key(
    current: Seq<u8>,
    previous: Seq<u8>,
    nonce: Seq<u8>,
    sealed: Seq<u8>,
    secret: Seq<u8>,
    ticket: Seq<char>,
)
    requires
        nonce.len() == 12,
        sealed.len() == 48,
        base64_decoded(ticket) == Some(nonce + sealed),
    ensures
        ticket_bytes(current, nonce, secret) == nonce + gcm_sealed(current, nonce, seq![], secret),
        gcm_opened(current, nonce, seq![], sealed) == Some(secret) ==> ticket_outcome(
            current,
            previous,
            ticket,
        ) == Ok::<Seq<u8>, Seq<char>>(secret),
        gcm_opened(current, nonce, seq![], sealed) is None && gcm_opened(
            previous,
            nonce,
            seq![],
            sealed,
        ) == Some(secret) ==> ticket_outcome(current, previous, ticket) == Ok::<
            Seq<u8>,
            Seq<char>,
        >(secret),
        gcm_opened(current, nonce, seq![], sealed) is None && gcm_opened(
            previous,
            nonce,
            seq![],
            sealed,
        ) is None ==> ticket_outcome(current, previous, ticket) == Err::<Seq<u8>, Seq<char>>(
            "Ticket decryption failed (expired or invalid)"@,
        ),
{
    assert((nonce + sealed).take(12) =~= nonce);
    assert((nonce + sealed).skip(12) =~= sealed);
}

} // verus!
