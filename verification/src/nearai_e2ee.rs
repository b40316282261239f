//! End-to-end encryption towards an enclave of Near AI: the client's session keys, and
//! messages sealed to a public key.

use vstd::prelude::*;
use vstd::utf8::encode_utf8;

use crate::bytes::array_at;
use crate::bytes::push_all;
use crate::bytes::zeros;
use crate::primitives::ed25519_public;
use crate::primitives::ed25519_public_of;
use crate::primitives::gen_random_bytes;
use crate::primitives::hex_bytes;
use crate::primitives::hex_decode;
use crate::primitives::hex_digit;
use crate::primitives::hex_encode;
use crate::primitives::hex_of;
use crate::primitives::hex_value;
use crate::primitives::hkdf_sha256;
use crate::primitives::hkdf_sha256_of;
use crate::primitives::is_hex;
use crate::primitives::sha512;
use crate::primitives::sha512_of;
use crate::primitives::text_from_utf8;
use crate::primitives::x25519_agreed;
use crate::primitives::x25519_ephemeral;
use crate::primitives::x25519_public_of;
use crate::primitives::x25519_shared;
use crate::primitives::x25519_shared_of;
use crate::primitives::xchacha20poly1305_open;
use crate::primitives::xchacha20poly1305_seal;
use crate::primitives::xchacha_opened;
use crate::primitives::xchacha_sealed;
use crate::primitives::zeroize_array;
use crate::primitives::AgreementError;

verus! {

/// The longest ciphertext that the cipher opens.
pub const MAX_SEALED: u64 = 274877906832;

/// The longest plaintext that the cipher seals.
pub const MAX_PLAIN: u64 = 274877906816;

// ---------------------------------------------------------------------------
// The client's keys
// ---------------------------------------------------------------------------

/// The keys of a client towards an enclave: the Ed25519 public key that it shows, and the
/// X25519 secret key that belongs to it.
pub struct E2eeSession {
    pub client_pub_hex: String,
    pub x25519_secret: [u8; 32],
}

impl Drop for E2eeSession {
    /// Wipes the secret key.
    fn drop(&mut self)
        ensures
            final(self).x25519_secret@ == zeros(32),
            final(self).client_pub_hex == old(self).client_pub_hex,
        opens_invariants none
        no_unwind
    {
        zeroize_array(&mut self.x25519_secret);
    }
}

/// The X25519 secret key of an Ed25519 seed: the first half of the seed's digest, clamped.
pub open spec fn clamped_secret(seed: Seq<u8>) -> Seq<u8> {
    let h = sha512_of(seed).take(32);
    h.update(0, h[0] & 248).update(31, (h[31] & 127) | 64)
}

impl E2eeSession {
    /// The keys that a seed stands for. The secret is never all zeros.
    pub fn from_seed(seed: &[u8; 32]) -> (r: Self)
        ensures
            r.client_pub_hex@ == hex_of(ed25519_public_of(seed@)),
            r.x25519_secret@ == clamped_secret(seed@),
            r.x25519_secret@[31] != 0,
    {
        let public = ed25519_public(seed);
        let client_pub_hex = hex_encode(public.as_slice());
        let mut digest = sha512(seed.as_slice());
        let mut secret: [u8; 32] = array_at(digest.as_slice(), 0);
        zeroize_array(&mut digest);
        let first: u8 = secret[0];
        let last: u8 = secret[31];
        secret[0] = first & 248;
        secret[31] = (last & 127) | 64;
        proof {
            assert((last & 127) | 64 != 0) by (bit_vector);
            assert(secret@ =~= clamped_secret(seed@));
        }
        E2eeSession { client_pub_hex, x25519_secret: secret }
    }

    /// Fresh keys; `None` where no randomness can be had.
    pub fn new() -> (r: Option<Self>)
        ensures
            r matches Some(s) ==> exists|seed: Seq<u8>|
                seed.len() == 32 && s.client_pub_hex@ == hex_of(#[trigger] ed25519_public_of(seed))
                    && s.x25519_secret@ == clamped_secret(seed) && s.x25519_secret@[31] != 0,
    {
        match gen_random_bytes::<32>() {
            Some(seed) => {
                let mut seed = seed;
                let session = E2eeSession::from_seed(&seed);
                proof {
                    assert(seed@.len() == 32);
                    assert(session.client_pub_hex@ == hex_of(ed25519_public_of(seed@)));
                }
                zeroize_array(&mut seed);
                Some(session)
            },
            None => None,
        }
    }
}

// ---------------------------------------------------------------------------
// Sealed messages
// ---------------------------------------------------------------------------

/// The key that a shared secret gives a message.
pub open spec fn v2_key(shared: Seq<u8>) -> Seq<u8> {
    hkdf_sha256_of(seq![], shared, encode_utf8("ed25519_encryption"@))
}

/// A sealed message: the ephemeral public key, the nonce and the ciphertext, in hexadecimal
/// digits.
pub open spec fn v2_text(
    ephemeral: Seq<u8>,
    shared: Seq<u8>,
    nonce: Seq<u8>,
    plaintext: Seq<u8>,
) -> Seq<char> {
    hex_of(ephemeral + nonce + xchacha_sealed(v2_key(shared), nonce, plaintext))
}

/// What a sealed message says to the owner of a secret key, or why it cannot be read.
pub open spec fn v2_outcome(data: Seq<char>, secret: Seq<u8>) -> Result<Seq<char>, Seq<char>> {
    let bytes = hex_bytes(data);
    if !is_hex(data) {
        Err("Invalid hex"@)
    } else if bytes.len() < 56 {
        Err("Payload too short"@)
    } else if bytes.len() - 56 > MAX_SEALED {
        Err("Decryption failed"@)
    } else {
        match xchacha_opened(
            v2_key(x25519_shared_of(secret, bytes.take(32))),
            bytes.subrange(32, 56),
            bytes.skip(56),
        ) {
            None => Err("Decryption failed"@),
            Some(plaintext) => if vstd::utf8::valid_utf8(plaintext) {
                Ok(vstd::utf8::decode_utf8(plaintext))
            } else {
                Err("Invalid UTF-8"@)
            },
        }
    }
}

proof fn lemma_hex_digit(v: int)
    requires
        0 <= v < 16,
    ensures
        hex_value(hex_digit(v)) == Some(v),
{
    let c = hex_digit(v);
    if v < 10 {
        assert(c as int == '0' as int + v);
    } else {
        assert(c as int == 'a' as int + v - 10);
    }
}

/// Hexadecimal digits stand for the bytes that they were made of.
pub proof fn law_hex_read_back(data: Seq<u8>)
    ensures
        is_hex(hex_of(data)),
        hex_bytes(hex_of(data)) == data,
{
    let t = hex_of(data);
    assert forall|i: int| 0 <= i < t.len() implies hex_value(#[trigger] t[i]) is Some by {
        lemma_hex_digit(data[i / 2] as int / 16);
        lemma_hex_digit(data[i / 2] as int % 16);
    }
    assert forall|i: int| 0 <= i < data.len() implies hex_bytes(t)[i] == data[i] by {
        lemma_hex_digit(data[i] as int / 16);
        lemma_hex_digit(data[i] as int % 16);
        assert((2 * i) / 2 == i && (2 * i) % 2 == 0);
        assert((2 * i + 1) / 2 == i && (2 * i + 1) % 2 == 1);
        assert(t[2 * i] == hex_digit(data[i] as int / 16));
        assert(t[2 * i + 1] == hex_digit(data[i] as int % 16));
    }
    assert(hex_bytes(t) =~= data);
}

fn derive_key(shared: &[u8; 32]) -> (r: [u8; 32])
    ensures
        r@ == v2_key(shared@),
{
    let salt: [u8; 0] = [];
    proof {
        assert(salt@ =~= seq![]);
    }
    hkdf_sha256(salt.as_slice(), shared.as_slice(), "ed25519_encryption".as_bytes())
}

/// Seals a message with the secret that an ephemeral key shares with its reader. Whoever
/// shares that secret reads the message back.
pub fn v2_encrypt_with(
    plaintext: &[u8],
    ephemeral: &[u8; 32],
    shared: &[u8; 32],
    nonce: &[u8; 24],
) -> (r: Result<String, String>)
    ensures
        match r {
            Ok(s) => {
                &&& plaintext@.len() <= MAX_PLAIN
                &&& s@ == v2_text(ephemeral@, shared@, nonce@, plaintext@)
                &&& s@.len() == 2 * (plaintext@.len() + 72)
                &&& forall|secret: Seq<u8>, said: Seq<char>|
                    plaintext@ == encode_utf8(said) && x25519_shared_of(secret, ephemeral@)
                        == shared@ ==> #[trigger] encode_utf8(said) == plaintext@ && (
                    #[trigger] v2_outcome(s@, secret)) == Ok::<Seq<char>, Seq<char>>(said)
            },
            Err(e) => plaintext@.len() > MAX_PLAIN && e@ == "Encryption failed: aead::Error"@,
        },
{
    if plaintext.len() as u64 > MAX_PLAIN {
        return Err("Encryption failed: aead::Error".to_string());
    }
    let mut key = derive_key(shared);
    let sealed = xchacha20poly1305_seal(&key, nonce, plaintext);
    let ghost k = key@;
    zeroize_array(&mut key);
    let mut out: Vec<u8> = Vec::new();
    push_all(&mut out, ephemeral.as_slice());
    push_all(&mut out, nonce.as_slice());
    push_all(&mut out, sealed.as_slice());
    let r = hex_encode(out.as_slice());
    proof {
        assert(out@ =~= ephemeral@ + nonce@ + sealed@);
        law_hex_read_back(out@);
        assert(out@.take(32) =~= ephemeral@);
        assert(out@.subrange(32, 56) =~= nonce@);
        assert(out@.skip(56) =~= sealed@);
        assert forall|secret: Seq<u8>, said: Seq<char>|
            plaintext@ == encode_utf8(said) && x25519_shared_of(secret, ephemeral@)
                == shared@ implies #[trigger] encode_utf8(said) == plaintext@ && (
        #[trigger] v2_outcome(r@, secret)) == Ok::<Seq<char>, Seq<char>>(said) by {
            vstd::utf8::encode_utf8_decode_utf8(said);
            vstd::utf8::encode_utf8_valid_utf8(said);
        }
    }
    Ok(r)
}

/// Whether a message may be refused with an error: agreeing on a key or drawing a nonce can
/// fail, and a message can be longer than the cipher takes.
pub open spec fn v2_failure(e: Seq<char>, plaintext: Seq<u8>) -> bool {
    ||| exists|why: AgreementError| e == #[trigger] agreement_failure(why)
    ||| e == "Failed to generate nonce: Unspecified"@
    ||| e == "Encryption failed: aead::Error"@ && plaintext.len() > MAX_PLAIN
}

/// What is said of a key that cannot be agreed on.
pub open spec fn agreement_failure(e: AgreementError) -> Seq<char> {
    match e {
        AgreementError::Generate => "Failed to generate ephemeral key: Unspecified"@,
        AgreementError::PublicKey => "Failed to compute public key: Unspecified"@,
        AgreementError::Agree => "Failed DH agreement"@,
    }
}

/// Seals a message with what agreeing on a secret gave, an ephemeral public key and the secret,
/// and with the nonce that was drawn, if one was.
pub fn v2_encrypt_from(
    plaintext: &[u8],
    agreed: Result<([u8; 32], [u8; 32]), AgreementError>,
    drawn: Option<[u8; 24]>,
) -> (r: Result<String, String>)
    ensures
        match (agreed, drawn) {
            (Err(e), _) => r is Err && r->Err_0@ == agreement_failure(e),
            (Ok(_), None) => r is Err && r->Err_0@ == "Failed to generate nonce: Unspecified"@,
            (Ok(pair), Some(nonce)) => if plaintext@.len() <= MAX_PLAIN {
                &&& r is Ok
                &&& r->Ok_0@ == v2_text(pair.0@, pair.1@, nonce@, plaintext@)
                &&& r->Ok_0@.len() == 2 * (plaintext@.len() + 72)
                &&& forall|secret: Seq<u8>, said: Seq<char>|
                    plaintext@ == encode_utf8(said) && x25519_shared_of(secret, pair.0@)
                        == pair.1@ ==> #[trigger] encode_utf8(said) == plaintext@ && (
                    #[trigger] v2_outcome(r->Ok_0@, secret)) == Ok::<Seq<char>, Seq<char>>(said)
            } else {
                r is Err && r->Err_0@ == "Encryption failed: aead::Error"@
            },
        },
{
    let (ephemeral, mut shared) = match agreed {
        Ok(pair) => pair,
        Err(AgreementError::Generate) => {
            return Err("Failed to generate ephemeral key: Unspecified".to_string());
        },
        Err(AgreementError::PublicKey) => {
            return Err("Failed to compute public key: Unspecified".to_string());
        },
        Err(AgreementError::Agree) => {
            return Err("Failed DH agreement".to_string());
        },
    };
    let nonce = match drawn {
        Some(n) => n,
        None => {
            zeroize_array(&mut shared);
            return Err("Failed to generate nonce: Unspecified".to_string());
        },
    };
    let sealed = v2_encrypt_with(plaintext, &ephemeral, &shared, &nonce);
    zeroize_array(&mut shared);
    sealed
}

/// Seals a message to a public key, with a fresh ephemeral key. The owner of the public key
/// reads the message back.
pub fn v2_encrypt(plaintext: &[u8], recipient: &[u8; 32]) -> (r: Result<String, String>)
    ensures
        plaintext@.len() > MAX_PLAIN ==> r is Err,
        r matches Err(e) ==> v2_failure(e@, plaintext@),
        r matches Ok(s) ==> s@.len() == 2 * (plaintext@.len() + 72) && (exists|ephemeral: Seq<u8>, shared: Seq<u8>, nonce: Seq<u8>|
            ephemeral.len() == 32 && nonce.len() == 24 && x25519_agreed(
                ephemeral,
                recipient@,
                shared,
            ) && s@ == #[trigger] v2_text(ephemeral, shared, nonce, plaintext@)) && (forall|secret: Seq<u8>, said: Seq<char>|
            plaintext@ == encode_utf8(said) && secret.len() == 32 && x25519_public_of(secret)
                == recipient@ ==> #[trigger] encode_utf8(said) == plaintext@ && (
            #[trigger] v2_outcome(s@, secret)) == Ok::<Seq<char>, Seq<char>>(said)),
{
    let agreed = x25519_ephemeral(recipient);
    let drawn = gen_random_bytes::<24>();
    let ghost pairs = agreed;
    let sealed = v2_encrypt_from(plaintext, agreed, drawn);
    let ghost given = sealed;
    proof {
        match (pairs, drawn, given) {
            (Ok(pair), Some(nonce), Ok(s)) => {
                assert(pair.0@.len() == 32 && nonce@.len() == 24);
                assert(s@ == v2_text(pair.0@, pair.1@, nonce@, plaintext@));
                assert forall|secret: Seq<u8>, said: Seq<char>|
                    plaintext@ == encode_utf8(said) && secret.len() == 32 && x25519_public_of(
                        secret,
                    ) == recipient@ implies #[trigger] encode_utf8(said) == plaintext@ && (
                #[trigger] v2_outcome(s@, secret)) == Ok::<Seq<char>, Seq<char>>(said) by {
                    assert(x25519_shared_of(secret, pair.0@) == pair.1@);
                }
            },
            (Err(e), _, _) => {
                assert(given->Err_0@ == agreement_failure(e));
            },
            _ => {},
        }
    }
    sealed
}

/// Reads a sealed message with a secret key.
pub fn v2_decrypt(data_hex: &str, secret: &[u8; 32]) -> (r: Result<String, String>)
    ensures
        match r {
            Ok(t) => v2_outcome(data_hex@, secret@) == Ok::<Seq<char>, Seq<char>>(t@),
            Err(e) => v2_outcome(data_hex@, secret@) == Err::<Seq<char>, Seq<char>>(e@),
        },
{
    let data = match hex_decode(data_hex) {
        Some(d) => d,
        None => {
            return Err("Invalid hex".to_string());
        },
    };
    let len: usize = data.len();
    if len < 56 {
        return Err("Payload too short".to_string());
    }
    if (len - 56) as u64 > MAX_SEALED {
        return Err("Decryption failed".to_string());
    }
    let ephemeral: [u8; 32] = array_at(data.as_slice(), 0);
    let nonce: [u8; 24] = array_at(data.as_slice(), 32);
    proof {
        assert(ephemeral@ =~= data@.take(32));
        assert(data@.subrange(56, data@.len() as int) =~= data@.skip(56));
    }
    let mut shared = x25519_shared(secret, &ephemeral);
    let mut key = derive_key(&shared);
    zeroize_array(&mut shared);
    let sealed = &data.as_slice()[56..len];
    let opened = xchacha20poly1305_open(&key, &nonce, sealed);
    zeroize_array(&mut key);
    match opened {
        None => Err("Decryption failed".to_string()),
        Some(plaintext) => match text_from_utf8(plaintext) {
            Some(t) => {
                proof {
                    vstd::utf8::encode_utf8_decode_utf8(t@);
                    vstd::utf8::encode_utf8_valid_utf8(t@);
                }
                Ok(t)
            },
            None => Err("Invalid UTF-8".to_string()),
        },
    }
}

} // verus!
