//! End-to-end encryption between a client and the proxy: tickets, sessions and the
//! ratchet that encrypts streamed answers.

use vstd::prelude::*;
use vstd::utf8::encode_utf8;

use crate::bytes::array_at;
use crate::bytes::push_all;
use crate::bytes::zeros;
use crate::primitives::aes256gcm_open;
use crate::primitives::aes256gcm_seal;
use crate::primitives::base64_decode;
use crate::primitives::base64_decoded;
use crate::primitives::base64_encode;
use crate::primitives::base64_of;
use crate::primitives::gcm_max_aad;
use crate::primitives::gcm_max_plaintext;
use crate::primitives::gcm_opened;
use crate::primitives::gcm_sealed;
use crate::primitives::gen_random_bytes;
use crate::primitives::hkdf_sha256;
use crate::primitives::hkdf_sha256_of;
use crate::primitives::text_from_utf8;
use crate::primitives::x25519_public;
use crate::primitives::x25519_public_of;
use crate::primitives::x25519_shared;
use crate::primitives::x25519_shared_of;
use crate::primitives::zeroize_array;
use crate::primitives::zeroize_vec;
use crate::text;

verus! {

// ---------------------------------------------------------------------------
// Tickets
// ---------------------------------------------------------------------------

/// The two keys under which tickets are sealed: the one for new tickets, and the one
/// before it, so that a ticket outlives one rotation.
#[derive(Clone)]
pub struct TicketSecrets {
    pub current: [u8; 32],
    pub previous: [u8; 32],
}

/// What a client gets: the public key of a fresh key pair, and its private key sealed.
pub struct E2eeTicketResponse {
    pub public_key: String,
    pub encrypted_private_key: String,
}

/// The bytes of a ticket for a secret key: the nonce, then the sealed key.
pub open spec fn ticket_bytes(key: Seq<u8>, nonce: Seq<u8>, secret: Seq<u8>) -> Seq<u8> {
    nonce + gcm_sealed(key, nonce, seq![], secret)
}

/// What a ticket opens to under one key.
pub open spec fn ticket_opened(key: Seq<u8>, payload: Seq<u8>) -> Option<Seq<u8>> {
    gcm_opened(key, payload.take(12), seq![], payload.skip(12))
}

/// The secret key in a ticket, or why it cannot be had: the current key is tried first,
/// then the previous one.
pub open spec fn ticket_outcome(current: Seq<u8>, previous: Seq<u8>, ticket: Seq<char>) -> Result<
    Seq<u8>,
    Seq<char>,
> {
    match base64_decoded(ticket) {
        None => Err("Invalid base64"@),
        Some(payload) => if payload.len() != 60 {
            Err("Invalid ticket length"@)
        } else {
            match ticket_opened(current, payload) {
                Some(secret) => Ok(secret),
                None => match ticket_opened(previous, payload) {
                    Some(secret) => Ok(secret),
                    None => Err("Ticket decryption failed (expired or invalid)"@),
                },
            }
        },
    }
}

impl TicketSecrets {
    /// The keys that two draws give, if both gave one.
    pub fn from_draws(current: Option<[u8; 32]>, previous: Option<[u8; 32]>) -> (r: Option<Self>)
        ensures
            r is Some <==> current is Some && previous is Some,
            r matches Some(s) ==> Some(s.current) == current && Some(s.previous) == previous,
    {
        match (current, previous) {
            (Some(current), Some(previous)) => Some(TicketSecrets { current, previous }),
            _ => None,
        }
    }

    /// Two fresh keys, of which nothing is known; `None` where no randomness can be had.
    pub fn new() -> (r: Option<Self>) {
        let current = gen_random_bytes::<32>();
        let previous = gen_random_bytes::<32>();
        TicketSecrets::from_draws(current, previous)
    }

    /// Makes the current key the previous one and `fresh` the current one. The key that
    /// is dropped is wiped.
    pub fn rotate_to(&mut self, fresh: [u8; 32])
        ensures
            final(self).previous == old(self).current,
            final(self).current == fresh,
    {
        zeroize_array(&mut self.previous);
        self.previous = self.current;
        self.current = fresh;
    }

    /// Makes the current key the previous one and a fresh key the current one. Where no
    /// randomness can be had, the keys stay and the answer is `false`.
    pub fn rotate(&mut self) -> (r: bool)
        ensures
            r ==> final(self).previous == old(self).current,
            !r ==> *final(self) == *old(self),
    {
        match gen_random_bytes::<32>() {
            Some(fresh) => {
                self.rotate_to(fresh);
                true
            },
            None => false,
        }
    }

    /// Wipes both keys.
    pub fn zeroize(&mut self)
        ensures
            final(self).current@ == zeros(32),
            final(self).previous@ == zeros(32),
    {
        zeroize_array(&mut self.current);
        zeroize_array(&mut self.previous);
    }
}

impl Drop for TicketSecrets {
    /// Wipes both keys.
    fn drop(&mut self)
        ensures
            final(self).current@ == zeros(32),
            final(self).previous@ == zeros(32),
        opens_invariants none
        no_unwind
    {
        zeroize_array(&mut self.current);
        zeroize_array(&mut self.previous);
    }
}

/// The ticket for a secret key, sealed with a nonce under the current key. The secret comes
/// back from it under the same keys, and also once they have been rotated, whatever the
/// fresh key, as long as that key does not open the ticket to something else.
pub fn ticket_for(secrets: &TicketSecrets, secret: &[u8; 32], nonce: &[u8; 12]) -> (r:
    E2eeTicketResponse)
    ensures
        r.public_key@ == base64_of(x25519_public_of(secret@)),
        r.encrypted_private_key@ == base64_of(
            ticket_bytes(secrets.current@, nonce@, secret@),
        ),
        forall|previous: Seq<u8>|
            #[trigger] ticket_outcome(secrets.current@, previous, r.encrypted_private_key@) == Ok::<
                Seq<u8>,
                Seq<char>,
            >(secret@),
        forall|fresh: Seq<u8>|
            ticket_opened(fresh, ticket_bytes(secrets.current@, nonce@, secret@)) is None
                ==> #[trigger] ticket_outcome(fresh, secrets.current@, r.encrypted_private_key@)
                == Ok::<Seq<u8>, Seq<char>>(secret@),
{
    let public_key = x25519_public(secret);
    let aad: [u8; 0] = [];
    proof {
        assert(aad@ =~= seq![]);
    }
    let sealed = aes256gcm_seal(&secrets.current, nonce, aad.as_slice(), secret.as_slice());
    let sealed = sealed.unwrap();
    let mut payload: Vec<u8> = Vec::new();
    push_all(&mut payload, nonce.as_slice());
    push_all(&mut payload, sealed.as_slice());
    proof {
        assert(payload@ =~= ticket_bytes(secrets.current@, nonce@, secret@));
        assert(payload@.take(12) =~= nonce@);
        assert(payload@.skip(12) =~= sealed@);
    }
    E2eeTicketResponse {
        public_key: base64_encode(public_key.as_slice()),
        encrypted_private_key: base64_encode(payload.as_slice()),
    }
}

/// A fresh key pair as a ticket; `None` where no randomness can be had. The secret half
/// comes back from the ticket under the keys that sealed it.
pub fn generate_ticket(secrets: &TicketSecrets) -> (r: Option<E2eeTicketResponse>)
    ensures
        r matches Some(t) ==> exists|secret: Seq<u8>, nonce: Seq<u8>|
            {
                &&& secret.len() == 32
                &&& nonce.len() == 12
                &&& t.public_key@ == base64_of(x25519_public_of(secret))
                &&& t.encrypted_private_key@ == base64_of(
                    #[trigger] ticket_bytes(secrets.current@, nonce, secret),
                )
                &&& ticket_outcome(
                    secrets.current@,
                    secrets.previous@,
                    t.encrypted_private_key@,
                ) == Ok::<Seq<u8>, Seq<char>>(secret)
            },
{
    let mut secret: [u8; 32] = match gen_random_bytes::<32>() {
        Some(b) => b,
        None => {
            return None;
        },
    };
    let nonce: [u8; 12] = match gen_random_bytes::<12>() {
        Some(b) => b,
        None => {
            zeroize_array(&mut secret);
            return None;
        },
    };
    let ticket = ticket_for(secrets, &secret, &nonce);
    proof {
        let shown = secret@;
        assert(shown.len() == 32 && nonce@.len() == 12);
        assert(ticket.encrypted_private_key@ == base64_of(
            ticket_bytes(secrets.current@, nonce@, shown),
        ));
    }
    zeroize_array(&mut secret);
    Some(ticket)
}

/// The secret key of a ticket. It is wiped when it is dropped.
pub struct ServerSecret {
    pub bytes: [u8; 32],
}

impl Drop for ServerSecret {
    /// Wipes the key.
    fn drop(&mut self)
        ensures
            final(self).bytes@ == zeros(32),
        opens_invariants none
        no_unwind
    {
        zeroize_array(&mut self.bytes);
    }
}

/// Opens a ticket that a client sent back.
pub fn decrypt_ticket(secrets: &TicketSecrets, encrypted_base64: &str) -> (r: Result<
    ServerSecret,
    String,
>)
    ensures
        match r {
            Ok(secret) => ticket_outcome(secrets.current@, secrets.previous@, encrypted_base64@)
                == Ok::<Seq<u8>, Seq<char>>(secret.bytes@),
            Err(e) => ticket_outcome(secrets.current@, secrets.previous@, encrypted_base64@) == Err::<
                Seq<u8>,
                Seq<char>,
            >(e@),
        },
{
    let payload = match base64_decode(encrypted_base64) {
        Some(p) => p,
        None => {
            return Err("Invalid base64".to_string());
        },
    };
    if payload.len() != 60 {
        return Err("Invalid ticket length".to_string());
    }
    let nonce: [u8; 12] = array_at(payload.as_slice(), 0);
    let aad: [u8; 0] = [];
    proof {
        assert(aad@ =~= seq![]);
        assert(nonce@ =~= payload@.take(12));
        assert(payload@.subrange(12, 60) =~= payload@.skip(12));
    }
    let sealed = &payload.as_slice()[12..60];
    if let Some(mut opened) = aes256gcm_open(&secrets.current, &nonce, aad.as_slice(), sealed) {
        let secret = ServerSecret { bytes: array_at(opened.as_slice(), 0) };
        proof {
            assert(secret.bytes@ =~= opened@);
        }
        zeroize_vec(&mut opened);
        return Ok(secret);
    }
    if let Some(mut opened) = aes256gcm_open(&secrets.previous, &nonce, aad.as_slice(), sealed) {
        let secret = ServerSecret { bytes: array_at(opened.as_slice(), 0) };
        proof {
            assert(secret.bytes@ =~= opened@);
        }
        zeroize_vec(&mut opened);
        return Ok(secret);
    }
    Err("Ticket decryption failed (expired or invalid)".to_string())
}

// ---------------------------------------------------------------------------
// Sessions
// ---------------------------------------------------------------------------

/// An established session with a client.
pub struct E2eeSession {
    shared_secret: [u8; 32],
    pub client_pub_key: [u8; 32],
    pub model_name: String,
}

impl Drop for E2eeSession {
    /// Wipes the secret that both sides share.
    fn drop(&mut self)
        ensures
            final(self).shared() == zeros(32),
            final(self).client_key() == old(self).client_key(),
            final(self).model() == old(self).model(),
        opens_invariants none
        no_unwind
    {
        zeroize_array(&mut self.shared_secret);
    }
}

/// The key of one message: derived from the shared secret for its index and role.
pub open spec fn message_key(shared: Seq<u8>, index: nat, role: Seq<char>) -> Seq<u8> {
    hkdf_sha256_of(
        seq![],
        shared,
        encode_utf8("message_"@ + text::decimal(index) + "_"@ + role),
    )
}

/// What a message is bound to: the client's key, the model, the role and the toggles.
pub open spec fn message_aad(
    client_pub: Seq<u8>,
    model: Seq<char>,
    role: Seq<char>,
    toggles: Seq<char>,
) -> Seq<u8> {
    client_pub + encode_utf8(model) + encode_utf8(role) + encode_utf8(toggles)
}

/// The text of an encrypted message, or why it cannot be had.
pub open spec fn message_outcome(
    shared: Seq<u8>,
    client_pub: Seq<u8>,
    model: Seq<char>,
    index: nat,
    role: Seq<char>,
    encrypted: Seq<char>,
    toggles: Seq<char>,
) -> Result<Seq<char>, Seq<char>> {
    match base64_decoded(encrypted) {
        None => Err("Invalid message base64"@),
        Some(payload) => if payload.len() < 28 {
            Err("Invalid encrypted message length"@)
        } else {
            match gcm_opened(
                message_key(shared, index, role),
                payload.take(12),
                message_aad(client_pub, model, role, toggles),
                payload.skip(12),
            ) {
                None => Err("AES-GCM decryption failed"@),
                Some(plaintext) => if vstd::utf8::valid_utf8(plaintext) {
                    Ok(vstd::utf8::decode_utf8(plaintext))
                } else {
                    Err("Invalid UTF-8 in decrypted message"@)
                },
            }
        },
    }
}

impl E2eeSession {
    /// The secret that both sides share.
    pub closed spec fn shared(&self) -> Seq<u8> {
        self.shared_secret@
    }

    /// The client's public key.
    pub closed spec fn client_key(&self) -> Seq<u8> {
        self.client_pub_key@
    }

    /// The model that the session is for.
    pub closed spec fn model(&self) -> Seq<char> {
        self.model_name@
    }

    /// Establishes a session between the secret key of a ticket and the client's public
    /// key, which is used up. A client with the secret key of that public key shares the same
    /// secret.
    pub fn new(server_static: ServerSecret, client_pub_bytes: &[u8; 32], model_name: String) -> (r:
        Self)
        ensures
            r.shared() == x25519_shared_of(server_static.bytes@, client_pub_bytes@),
            r.client_key() == client_pub_bytes@,
            r.model() == model_name@,
            forall|client_secret: Seq<u8>|
                client_secret.len() == 32 && client_pub_bytes@ == #[trigger] x25519_public_of(
                    client_secret,
                ) ==> r.shared() == x25519_shared_of(
                    client_secret,
                    x25519_public_of(server_static.bytes@),
                ),
    {
        E2eeSession {
            shared_secret: x25519_shared(&server_static.bytes, client_pub_bytes),
            client_pub_key: *client_pub_bytes,
            model_name,
        }
    }

    /// Decrypts one message of the client.
    pub fn decrypt_message(
        &self,
        index: usize,
        role: &str,
        encrypted_base64: &str,
        toggles_aad: &str,
    ) -> (r: Result<String, String>)
        ensures
            match r {
                Ok(t) => message_outcome(
                    self.shared(),
                    self.client_key(),
                    self.model(),
                    index as nat,
                    role@,
                    encrypted_base64@,
                    toggles_aad@,
                ) == Ok::<Seq<char>, Seq<char>>(t@),
                Err(e) => message_outcome(
                    self.shared(),
                    self.client_key(),
                    self.model(),
                    index as nat,
                    role@,
                    encrypted_base64@,
                    toggles_aad@,
                ) == Err::<Seq<char>, Seq<char>>(e@),
            },
            match base64_decoded(encrypted_base64@) {
                None => r is Err && r->Err_0@ == "Invalid message base64"@,
                Some(payload) => if payload.len() < 28 {
                    r is Err && r->Err_0@ == "Invalid encrypted message length"@
                } else {
                    match gcm_opened(
                        hkdf_sha256_of(
                            seq![],
                            self.shared(),
                            encode_utf8(
                                "message_"@ + text::decimal(index as nat) + "_"@ + role@,
                            ),
                        ),
                        payload.take(12),
                        self.client_key() + encode_utf8(self.model()) + encode_utf8(role@)
                            + encode_utf8(toggles_aad@),
                        payload.skip(12),
                    ) {
                        None => r is Err && r->Err_0@ == "AES-GCM decryption failed"@,
                        Some(plaintext) => if vstd::utf8::valid_utf8(plaintext) {
                            r is Ok && encode_utf8(r->Ok_0@) == plaintext
                        } else {
                            r is Err && r->Err_0@ == "Invalid UTF-8 in decrypted message"@
                        },
                    }
                },
            },
    {
        let payload = match base64_decode(encrypted_base64) {
            Some(p) => p,
            None => {
                return Err("Invalid message base64".to_string());
            },
        };
        if payload.len() < 28 {
            return Err("Invalid encrypted message length".to_string());
        }
        let number = text::decimal_of(index as u64);
        let info = text::cat4("message_", number.as_str(), "_", role);
        let salt: [u8; 0] = [];
        proof {
            assert(salt@ =~= seq![]);
        }
        let mut key = hkdf_sha256(
            salt.as_slice(),
            self.shared_secret.as_slice(),
            info.as_str().as_bytes(),
        );
        let mut aad: Vec<u8> = Vec::new();
        push_all(&mut aad, self.client_pub_key.as_slice());
        push_all(&mut aad, self.model_name.as_str().as_bytes());
        push_all(&mut aad, role.as_bytes());
        push_all(&mut aad, toggles_aad.as_bytes());
        let nonce: [u8; 12] = array_at(payload.as_slice(), 0);
        proof {
            assert(aad@ =~= message_aad(self.client_key(), self.model(), role@, toggles_aad@));
            assert(nonce@ =~= payload@.take(12));
            assert(payload@.subrange(12, payload@.len() as int) =~= payload@.skip(12));
        }
        let sealed = &payload.as_slice()[12..payload.len()];
        let opened = aes256gcm_open(&key, &nonce, aad.as_slice(), sealed);
        zeroize_array(&mut key);
        match opened {
            None => Err("AES-GCM decryption failed".to_string()),
            Some(plaintext) => {
                let ghost bytes = plaintext@;
                match text_from_utf8(plaintext) {
                    Some(t) => {
                        proof {
                            vstd::utf8::encode_utf8_decode_utf8(t@);
                            vstd::utf8::encode_utf8_valid_utf8(t@);
                        }
                        Ok(t)
                    },
                    None => Err("Invalid UTF-8 in decrypted message".to_string()),
                }
            },
        }
    }

    /// The ratchet that encrypts the answer's pieces.
    pub fn get_stream_ratchet(&self) -> (r: StreamRatchet)
        requires
            encode_utf8(self.model()).len() <= 0xffff_ffff_ffff,
        ensures
            r.wf(),
            r.key() == stream_key(self.shared(), 0),
            r.count() == 0,
            r.aad() == stream_aad(self.client_key(), self.model()),
    {
        StreamRatchet::new(&self.shared_secret, &self.client_pub_key, self.model_name.as_str())
    }
}

// ---------------------------------------------------------------------------
// The ratchet
// ---------------------------------------------------------------------------

/// Encrypts the pieces of an answer, each under a key of its own that is derived from the
/// one before it and then forgotten.
pub struct StreamRatchet {
    current_key: [u8; 32],
    chunk_counter: u64,
    aad_bytes: Vec<u8>,
}

impl Drop for StreamRatchet {
    /// Wipes the last key.
    fn drop(&mut self)
        ensures
            final(self).key() == zeros(32),
        opens_invariants none
        no_unwind
    {
        zeroize_array(&mut self.current_key);
    }
}

/// The key that follows `key` as number `n`.
pub open spec fn next_key(key: Seq<u8>, n: nat) -> Seq<u8> {
    hkdf_sha256_of(seq![], key, encode_utf8("stream_chunk_"@ + text::decimal(n)))
}

/// The key of piece number `n`, counted from zero, of the answers in a session.
pub open spec fn stream_key(shared: Seq<u8>, n: nat) -> Seq<u8>
    decreases n,
{
    if n == 0 {
        hkdf_sha256_of(seq![], shared, encode_utf8("stream_init"@))
    } else {
        next_key(stream_key(shared, (n - 1) as nat), n)
    }
}

/// What every piece of an answer is bound to.
pub open spec fn stream_aad(client_pub: Seq<u8>, model: Seq<char>) -> Seq<u8> {
    client_pub + encode_utf8(model) + encode_utf8("stream_response"@)
}

/// What a client that knows the key and the binding reads in an encrypted piece.
pub open spec fn chunk_opened(key: Seq<u8>, aad: Seq<u8>, chunk: Seq<char>) -> Option<Seq<u8>> {
    match base64_decoded(chunk) {
        Some(payload) => if payload.len() < 12 {
            None
        } else {
            gcm_opened(key, payload.take(12), aad, payload.skip(12))
        },
        None => None,
    }
}

/// An encrypted piece: the nonce, then the sealed text, in Base64.
pub open spec fn chunk_text(
    key: Seq<u8>,
    nonce: Seq<u8>,
    aad: Seq<u8>,
    plaintext: Seq<u8>,
) -> Seq<char> {
    base64_of(nonce + gcm_sealed(key, nonce, aad, plaintext))
}

impl StreamRatchet {
    /// The key of the next piece.
    pub closed spec fn key(&self) -> Seq<u8> {
        self.current_key@
    }

    /// The number of pieces encrypted so far.
    pub closed spec fn count(&self) -> nat {
        self.chunk_counter as nat
    }

    /// What every piece is bound to.
    pub closed spec fn aad(&self) -> Seq<u8> {
        self.aad_bytes@
    }

    /// Whether the binding is of a length that the cipher takes.
    pub closed spec fn wf(&self) -> bool {
        self.aad_bytes@.len() <= gcm_max_aad()
    }

    /// The number of pieces encrypted so far.
    pub fn chunks(&self) -> (r: u64)
        ensures
            r == self.count(),
    {
        self.chunk_counter
    }

    /// The ratchet of a session.
    pub fn new(shared_secret: &[u8; 32], client_pub: &[u8; 32], model_name: &str) -> (r: Self)
        requires
            encode_utf8(model_name@).len() <= 0xffff_ffff_ffff,
        ensures
            r.wf(),
            r.key() == stream_key(shared_secret@, 0),
            r.count() == 0,
            r.aad() == stream_aad(client_pub@, model_name@),
    {
        let salt: [u8; 0] = [];
        let current_key = hkdf_sha256(
            salt.as_slice(),
            shared_secret.as_slice(),
            "stream_init".as_bytes(),
        );
        let mut aad_bytes: Vec<u8> = Vec::new();
        push_all(&mut aad_bytes, client_pub.as_slice());
        push_all(&mut aad_bytes, model_name.as_bytes());
        push_all(&mut aad_bytes, "stream_response".as_bytes());
        proof {
            assert(salt@ =~= seq![]);
            assert(aad_bytes@ =~= stream_aad(client_pub@, model_name@));
            reveal_strlit("stream_response");
            vstd::utf8::is_ascii_chars_encode_utf8("stream_response"@);
        }
        StreamRatchet { current_key, chunk_counter: 0, aad_bytes }
    }

    /// Encrypts one piece with the given nonce and moves on to the next key. A client with
    /// the key of this piece reads the piece.
    pub fn encrypt_chunk_with(&mut self, plaintext: &[u8], nonce: &[u8; 12]) -> (r: String)
        requires
            old(self).wf(),
            old(self).count() < u64::MAX,
            plaintext@.len() <= gcm_max_plaintext(),
            plaintext@.len() + 28 <= usize::MAX / 4,
        ensures
            final(self).wf(),
            final(self).aad() == old(self).aad(),
            final(self).count() == old(self).count() + 1,
            final(self).key() == next_key(old(self).key(), old(self).count() + 1),
            r@ == chunk_text(old(self).key(), nonce@, old(self).aad(), plaintext@),
            chunk_opened(old(self).key(), old(self).aad(), r@) == Some(plaintext@),
            base64_decoded(r@) is Some && base64_decoded(r@)->0.len() == plaintext@.len() + 28,
    {
        let sealed = aes256gcm_seal(
            &self.current_key,
            nonce,
            self.aad_bytes.as_slice(),
            plaintext,
        ).unwrap();
        let mut payload: Vec<u8> = Vec::new();
        push_all(&mut payload, nonce.as_slice());
        push_all(&mut payload, sealed.as_slice());
        self.chunk_counter = self.chunk_counter + 1;
        let number = text::decimal_of(self.chunk_counter);
        let info = text::cat2("stream_chunk_", number.as_str());
        let salt: [u8; 0] = [];
        let next = hkdf_sha256(
            salt.as_slice(),
            self.current_key.as_slice(),
            info.as_str().as_bytes(),
        );
        zeroize_array(&mut self.current_key);
        self.current_key = next;
        proof {
            assert(salt@ =~= seq![]);
            assert(payload@ =~= nonce@ + sealed@);
            assert(payload@.take(12) =~= nonce@);
            assert(payload@.skip(12) =~= sealed@);
        }
        base64_encode(payload.as_slice())
    }

    /// Encrypts one piece with a fresh nonce and moves on to the next key; `None`, with
    /// nothing changed, where no randomness can be had.
    pub fn encrypt_chunk(&mut self, plaintext: &[u8]) -> (r: Option<String>)
        requires
            old(self).wf(),
            old(self).count() < u64::MAX,
            plaintext@.len() <= gcm_max_plaintext(),
            plaintext@.len() + 28 <= usize::MAX / 4,
        ensures
            final(self).wf(),
            final(self).aad() == old(self).aad(),
            match r {
                Some(chunk) => {
                    &&& final(self).count() == old(self).count() + 1
                    &&& final(self).key() == next_key(old(self).key(), old(self).count() + 1)
                    &&& chunk_opened(old(self).key(), old(self).aad(), chunk@) == Some(plaintext@)
                    &&& base64_decoded(chunk@) is Some
                    &&& base64_decoded(chunk@)->0.len() == plaintext@.len() + 28
                    &&& exists|nonce: Seq<u8>|
                        nonce.len() == 12 && chunk@ == #[trigger] chunk_text(
                            old(self).key(),
                            nonce,
                            old(self).aad(),
                            plaintext@,
                        )
                },
                None => *final(self) == *old(self),
            },
    {
        match gen_random_bytes::<12>() {
            Some(nonce) => {
                proof {
                    assert(nonce@.len() == 12);
                }
                Some(self.encrypt_chunk_with(plaintext, &nonce))
            },
            None => None,
        }
    }
}

/// A message that the client sealed under the key and binding of its place is read as the
/// client wrote it.
pub proof fn law_message_read_back(
    shared: Seq<u8>,
    client_pub: Seq<u8>,
    model: Seq<char>,
    index: nat,
    role: Seq<char>,
    encrypted: Seq<char>,
    toggles: Seq<char>,
    nonce: Seq<u8>,
    sealed: Seq<u8>,
    message: Seq<char>,
)
    requires
        nonce.len() == 12,
        sealed.len() >= 16,
        base64_decoded(encrypted) == Some(nonce + sealed),
        gcm_opened(
            message_key(shared, index, role),
            nonce,
            message_aad(client_pub, model, role, toggles),
            sealed,
        ) == Some(encode_utf8(message)),
    ensures
        message_outcome(shared, client_pub, model, index, role, encrypted, toggles) == Ok::<
            Seq<char>,
            Seq<char>,
        >(message),
{
    assert((nonce + sealed).take(12) =~= nonce);
    assert((nonce + sealed).skip(12) =~= sealed);
    vstd::utf8::encode_utf8_decode_utf8(message);
    vstd::utf8::encode_utf8_valid_utf8(message);
}

/// A ratchet that has encrypted `n` pieces of a session and moves on stands at the key of
/// piece `n + 1`: a client that derives the keys in the same order reads every piece.
pub proof fn law_ratchet_follows_stream_keys(shared: Seq<u8>, n: nat)
    ensures
        next_key(stream_key(shared, n), n + 1) == stream_key(shared, n + 1),
{
}

/// A ticket sealed under the current key opens to the same secret before and after one
/// rotation, unless the fresh key happens to open it.
pub proof fn law_ticket_outlives_rotation(
    current: Seq<u8>,
    previous: Seq<u8>,
    fresh: Seq<u8>,
    ticket: Seq<char>,
    secret: Seq<u8>,
)
    requires
        base64_decoded(ticket) is Some,
        ticket_opened(current, base64_decoded(ticket)->0) == Some(secret),
        ticket_outcome(current, previous, ticket) is Ok,
        ticket_opened(fresh, base64_decoded(ticket)->0) is None,
    ensures
        ticket_outcome(current, previous, ticket) == Ok::<Seq<u8>, Seq<char>>(secret),
        ticket_outcome(fresh, current, ticket) == Ok::<Seq<u8>, Seq<char>>(secret),
{
}

/// A ticket is refused after two rotations, unless one of the two fresh keys happens to open
/// it.
pub proof fn law_ticket_ends_with_two_rotations(
    first_fresh: Seq<u8>,
    second_fresh: Seq<u8>,
    ticket: Seq<char>,
)
    requires
        base64_decoded(ticket) is Some,
        base64_decoded(ticket)->0.len() == 60,
        ticket_opened(first_fresh, base64_decoded(ticket)->0) is None,
        ticket_opened(second_fresh, base64_decoded(ticket)->0) is None,
    ensures
        ticket_outcome(second_fresh, first_fresh, ticket) == Err::<Seq<u8>, Seq<char>>(
            "Ticket decryption failed (expired or invalid)"@,
        ),
{
}

} // verus!
