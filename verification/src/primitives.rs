//! The cryptographic and encoding functions of other crates that the library
//! calls, each behind one function whose contract says what is relied on.
//!
//! Everything in this file is trusted: the contracts say what the named
//! functions are documented, or seen in their source, to do. Results that take
//! pages to describe carry a name, an uninterpreted function of the arguments.

use aws_lc_rs::aead;
use aws_lc_rs::agreement;
use aws_lc_rs::digest;
use aws_lc_rs::hkdf;
use aws_lc_rs::kem;
use aws_lc_rs::signature;
use aws_lc_rs::signature::KeyPair;
use base64ct::Encoding;
use chacha20::cipher::KeyIvInit;
use chacha20::cipher::StreamCipher;
use chacha20poly1305::aead::Aead;
use chacha20poly1305::aead::KeyInit;
use poly1305::universal_hash::KeyInit as MacKeyInit;
use std::io::Read;
use std::io::Write;
use vstd::prelude::*;
use vstd::utf8::encode_utf8;
use x509_parser::prelude::FromDer;
use zeroize::Zeroize;

use crate::bytes::zeros;

verus! {

// ---------------------------------------------------------------------------
// Randomness, comparison, wiping
// ---------------------------------------------------------------------------

/// `aws_lc_rs::rand::fill` on `N` bytes: fresh random bytes, or `None` where the
/// system's entropy source fails. Nothing is claimed of the bytes.
#[verifier::external_body]
pub fn gen_random_bytes<const N: usize>() -> (r: Option<[u8; N]>) {
    let mut bytes = [0u8; N];
    aws_lc_rs::rand::fill(&mut bytes).ok().map(|_| bytes)
}

/// `aws_lc_rs::constant_time::verify_slices_are_equal`: it succeeds exactly when
/// the two slices hold the same bytes. Its timing is not part of the claim.
#[verifier::external_body]
pub(crate) fn constant_time_eq(a: &[u8], b: &[u8]) -> (r: bool)
    ensures
        r == (a@ == b@),
{
    aws_lc_rs::constant_time::verify_slices_are_equal(a, b).is_ok()
}

/// `Zeroize::zeroize` on an array: every byte becomes zero.
#[verifier::external_body]
pub(crate) fn zeroize_array<const N: usize>(b: &mut [u8; N])
    ensures
        final(b)@ == zeros(N as nat),
    opens_invariants none
    no_unwind
{
    b.zeroize();
}

/// `Zeroize::zeroize` on a byte vector: its bytes are overwritten and it is left
/// empty.
#[verifier::external_body]
pub(crate) fn zeroize_vec(b: &mut Vec<u8>)
    ensures
        final(b)@ == Seq::<u8>::empty(),
{
    b.zeroize();
}

/// `Zeroize::zeroize` on a string: its bytes are overwritten and it is left empty.
#[verifier::external_body]
pub(crate) fn zeroize_string(s: &mut String)
    ensures
        final(s)@ == Seq::<char>::empty(),
    opens_invariants none
    no_unwind
{
    s.zeroize();
}

// ---------------------------------------------------------------------------
// Digests and key derivation
// ---------------------------------------------------------------------------

/// The SHA-256 digest of `data`.
pub uninterp spec fn sha256_of(data: Seq<u8>) -> Seq<u8>;

/// The SHA-512 digest of `data`.
pub uninterp spec fn sha512_of(data: Seq<u8>) -> Seq<u8>;

/// What HKDF-SHA256 derives, as 32 bytes, from a salt, a secret and an info string.
pub uninterp spec fn hkdf_sha256_of(salt: Seq<u8>, secret: Seq<u8>, info: Seq<u8>) -> Seq<u8>;

/// `aws_lc_rs::digest::digest` with `SHA256`: a function of the data alone, 32 bytes.
#[verifier::external_body]
pub(crate) fn sha256(data: &[u8]) -> (r: [u8; 32])
    ensures
        r@ == sha256_of(data@),
{
    let mut out = [0u8; 32];
    out.copy_from_slice(digest::digest(&digest::SHA256, data).as_ref());
    out
}

/// `aws_lc_rs::digest::digest` with `SHA512`: a function of the data alone, 64 bytes.
#[verifier::external_body]
pub(crate) fn sha512(data: &[u8]) -> (r: [u8; 64])
    ensures
        r@ == sha512_of(data@),
{
    let mut out = [0u8; 64];
    out.copy_from_slice(digest::digest(&digest::SHA512, data).as_ref());
    out
}

/// `aws_lc_rs::hkdf`: `Salt::new(HKDF_SHA256, salt)`, `extract(secret)`,
/// `expand(&[info], HKDF_SHA256)` and `fill` of 32 bytes. The output length is
/// the digest's own, the one that `expand` and `fill` always accept; the result
/// is a function of the three arguments.
#[verifier::external_body]
pub(crate) fn hkdf_sha256(salt: &[u8], secret: &[u8], info: &[u8]) -> (r: [u8; 32])
    ensures
        r@ == hkdf_sha256_of(salt@, secret@, info@),
{
    let prk = hkdf::Salt::new(hkdf::HKDF_SHA256, salt).extract(secret);
    let parts = [info];
    let okm = prk.expand(&parts, hkdf::HKDF_SHA256).expect("the digest's own length");
    let mut out = [0u8; 32];
    okm.fill(&mut out).expect("the length asked for");
    out
}

// ---------------------------------------------------------------------------
// AES-256-GCM
// ---------------------------------------------------------------------------

/// The longest plaintext that AES-GCM seals under one nonce.
pub open spec fn gcm_max_plaintext() -> int {
    68719476704
}

/// The longest associated data that AES-GCM takes.
pub open spec fn gcm_max_aad() -> int {
    2305843009213693952
}

/// What AES-256-GCM makes of a plaintext: the ciphertext and the 16-byte tag.
pub uninterp spec fn gcm_sealed(
    key: Seq<u8>,
    nonce: Seq<u8>,
    aad: Seq<u8>,
    plaintext: Seq<u8>,
) -> Seq<u8>;

/// What AES-256-GCM recovers from a ciphertext with its tag, `None` where the tag
/// does not fit.
pub uninterp spec fn gcm_opened(
    key: Seq<u8>,
    nonce: Seq<u8>,
    aad: Seq<u8>,
    ciphertext: Seq<u8>,
) -> Option<Seq<u8>>;

/// `aws_lc_rs::aead::LessSafeKey::seal_in_place_append_tag` with `AES_256_GCM`. The
/// result is a function of the four arguments, 16 bytes longer than the plaintext,
/// and opening it under the same key, nonce and associated data gives the
/// plaintext back. It fails only where the plaintext or the associated data is
/// longer than the mode allows.
#[verifier::external_body]
pub(crate) fn aes256gcm_seal(key: &[u8; 32], nonce: &[u8; 12], aad: &[u8], plaintext: &[u8]) -> (r:
    Option<Vec<u8>>)
    ensures
        match r {
            Some(c) => {
                &&& c@ == gcm_sealed(key@, nonce@, aad@, plaintext@)
                &&& c@.len() == plaintext@.len() + 16
                &&& gcm_opened(key@, nonce@, aad@, c@) == Some(plaintext@)
            },
            None => plaintext@.len() > gcm_max_plaintext() || aad@.len() > gcm_max_aad(),
        },
{
    let key = aead::LessSafeKey::new(aead::UnboundKey::new(&aead::AES_256_GCM, key).ok()?);
    let nonce = aead::Nonce::assume_unique_for_key(*nonce);
    let mut in_out = plaintext.to_vec();
    key.seal_in_place_append_tag(nonce, aead::Aad::from(aad), &mut in_out).ok()?;
    Some(in_out)
}

/// `aws_lc_rs::aead::LessSafeKey::open_in_place` with `AES_256_GCM`: a function of the
/// four arguments; the plaintext is 16 bytes shorter than the ciphertext with its tag.
#[verifier::external_body]
pub(crate) fn aes256gcm_open(key: &[u8; 32], nonce: &[u8; 12], aad: &[u8], ciphertext: &[u8]) -> (r:
    Option<Vec<u8>>)
    ensures
        match r {
            Some(p) => {
                &&& gcm_opened(key@, nonce@, aad@, ciphertext@) == Some(p@)
                &&& p@.len() + 16 == ciphertext@.len()
            },
            None => gcm_opened(key@, nonce@, aad@, ciphertext@) is None,
        },
{
    let key = aead::LessSafeKey::new(aead::UnboundKey::new(&aead::AES_256_GCM, key).ok()?);
    let nonce = aead::Nonce::assume_unique_for_key(*nonce);
    let mut in_out = ciphertext.to_vec();
    let plaintext = key.open_in_place(nonce, aead::Aad::from(aad), &mut in_out).ok()?;
    Some(plaintext.to_vec())
}

// ---------------------------------------------------------------------------
// X25519 and Ed25519
// ---------------------------------------------------------------------------

/// The X25519 public key of a secret key.
pub uninterp spec fn x25519_public_of(secret: Seq<u8>) -> Seq<u8>;

/// What X25519 gives for one's own secret key and another's public key.
pub uninterp spec fn x25519_shared_of(secret: Seq<u8>, public: Seq<u8>) -> Seq<u8>;

/// Whether the owner of a key pair with public half `own_public` can have agreed on
/// `shared` with the owner of `peer`.
pub open spec fn x25519_agreed(own_public: Seq<u8>, peer: Seq<u8>, shared: Seq<u8>) -> bool {
    exists|own: Seq<u8>|
        own.len() == 32 && #[trigger] x25519_public_of(own) == own_public && x25519_shared_of(
            own,
            peer,
        ) == shared
}

/// Whether Ed25519 accepts a signature of a message under a public key.
pub uninterp spec fn ed25519_verifies(public: Seq<u8>, message: Seq<u8>, signature: Seq<u8>) -> bool;

/// The Ed25519 public key of a seed.
pub uninterp spec fn ed25519_public_of(seed: Seq<u8>) -> Seq<u8>;

/// The Montgomery form of a compressed Edwards point, `None` where the bytes are
/// no point.
pub uninterp spec fn montgomery_of(compressed: Seq<u8>) -> Option<Seq<u8>>;

/// `x25519_dalek::PublicKey::from(&StaticSecret)`: a function of the secret.
#[verifier::external_body]
pub(crate) fn x25519_public(secret: &[u8; 32]) -> (r: [u8; 32])
    ensures
        r@ == x25519_public_of(secret@),
{
    let secret = x25519_dalek::StaticSecret::from(*secret);
    x25519_dalek::PublicKey::from(&secret).to_bytes()
}

/// `x25519_dalek::StaticSecret::diffie_hellman`: a function of the secret and the
/// other's public key, and the same as the other side computes from its own secret
/// and this side's public key.
#[verifier::external_body]
pub(crate) fn x25519_shared(secret: &[u8; 32], public: &[u8; 32]) -> (r: [u8; 32])
    ensures
        r@ == x25519_shared_of(secret@, public@),
        forall|other: Seq<u8>|
            other.len() == 32 && public@ == #[trigger] x25519_public_of(other) ==> r@
                == x25519_shared_of(other, x25519_public_of(secret@)),
{
    let secret = x25519_dalek::StaticSecret::from(*secret);
    secret.diffie_hellman(&x25519_dalek::PublicKey::from(*public)).to_bytes()
}

/// Where an ephemeral key agreement fails.
pub enum AgreementError {
    Generate,
    PublicKey,
    Agree,
}

/// `aws_lc_rs::agreement` with `X25519`: `EphemeralPrivateKey::generate`,
/// `compute_public_key` and `agree_ephemeral`. The secret key is fresh, so nothing
/// is claimed of it but that the public key and the agreed secret are both its own; the
/// agreed secret is also what the owner of the peer's key computes from the public key.
/// Which failure comes, if any, is left open.
#[verifier::external_body]
pub(crate) fn x25519_ephemeral(peer: &[u8; 32]) -> (r: Result<
    ([u8; 32], [u8; 32]),
    AgreementError,
>)
    ensures
        r matches Ok(pair) ==> x25519_agreed(pair.0@, peer@, pair.1@) && forall|other: Seq<u8>|
            other.len() == 32 && peer@ == #[trigger] x25519_public_of(other) ==> pair.1@
                == x25519_shared_of(other, pair.0@),
{
    let rng = aws_lc_rs::rand::SystemRandom::new();
    let secret = agreement::EphemeralPrivateKey::generate(&agreement::X25519, &rng);
    let secret = secret.map_err(|_| AgreementError::Generate)?;
    let public = secret.compute_public_key().map_err(|_| AgreementError::PublicKey)?;
    let public = <[u8; 32]>::try_from(public.as_ref()).map_err(|_| AgreementError::PublicKey)?;
    let peer = agreement::UnparsedPublicKey::new(&agreement::X25519, peer);
    agreement::agree_ephemeral(secret, &peer, AgreementError::Agree, |shared| {
        <[u8; 32]>::try_from(shared).map(|s| (public, s)).map_err(|_| AgreementError::Agree)
    })
}

/// `aws_lc_rs::signature::UnparsedPublicKey::verify` with `ED25519`: whether the
/// signature is accepted, a function of the three arguments.
#[verifier::external_body]
pub(crate) fn ed25519_verify(public: &[u8; 32], message: &[u8], signature: &[u8]) -> (r: bool)
    ensures
        r == ed25519_verifies(public@, message@, signature@),
{
    let key = signature::UnparsedPublicKey::new(&signature::ED25519, public);
    key.verify(message, signature).is_ok()
}

/// `aws_lc_rs::signature::Ed25519KeyPair::from_seed_unchecked` and `public_key`: a
/// function of the seed. The constructor refuses only seeds shorter than 32 bytes.
#[verifier::external_body]
pub(crate) fn ed25519_public(seed: &[u8; 32]) -> (r: [u8; 32])
    ensures
        r@ == ed25519_public_of(seed@),
{
    let pair = signature::Ed25519KeyPair::from_seed_unchecked(seed).expect("32 bytes");
    let mut out = [0u8; 32];
    out.copy_from_slice(pair.public_key().as_ref());
    out
}

/// `curve25519_dalek::edwards::CompressedEdwardsY::decompress` and
/// `EdwardsPoint::to_montgomery`: a function of the bytes.
#[verifier::external_body]
pub(crate) fn edwards_to_montgomery(compressed: &[u8; 32]) -> (r: Option<[u8; 32]>)
    ensures
        match r {
            Some(m) => montgomery_of(compressed@) == Some(m@),
            None => montgomery_of(compressed@) is None,
        },
{
    let point = curve25519_dalek::edwards::CompressedEdwardsY(*compressed).decompress();
    point.map(|p| p.to_montgomery().to_bytes())
}

// ---------------------------------------------------------------------------
// ChaCha20 and Poly1305
// ---------------------------------------------------------------------------

/// The longest input that the XChaCha20 keystream covers: one block short of the
/// 32-bit block counter's range.
pub open spec fn xchacha_max_len() -> int {
    274877906880
}

/// The longest plaintext that ChaCha20-Poly1305 seals: the key stream's first block
/// is spent on the authentication key.
pub open spec fn chacha_aead_max_plaintext() -> int {
    274877906816
}

/// Byte `i` of the XChaCha20 keystream of a key and a 24-byte nonce.
pub uninterp spec fn xchacha20_keystream(key: Seq<u8>, nonce: Seq<u8>, i: int) -> u8;

/// The Poly1305 tag, with the last block not padded, of some data.
pub uninterp spec fn poly1305_tag_of(key: Seq<u8>, data: Seq<u8>) -> Seq<u8>;

/// What HChaCha20 makes of a key and a 16-byte input.
pub uninterp spec fn hchacha20_of(key: Seq<u8>, input: Seq<u8>) -> Seq<u8>;

/// What ChaCha20-Poly1305 makes of a plaintext: the ciphertext and the 16-byte tag.
pub uninterp spec fn chacha_sealed(key: Seq<u8>, nonce: Seq<u8>, plaintext: Seq<u8>) -> Seq<u8>;

/// What ChaCha20-Poly1305 recovers, `None` where the tag does not fit.
pub uninterp spec fn chacha_opened(key: Seq<u8>, nonce: Seq<u8>, ciphertext: Seq<u8>) -> Option<
    Seq<u8>,
>;

/// What XChaCha20-Poly1305 makes of a plaintext: the ciphertext and the 16-byte tag.
pub uninterp spec fn xchacha_sealed(key: Seq<u8>, nonce: Seq<u8>, plaintext: Seq<u8>) -> Seq<u8>;

/// What XChaCha20-Poly1305 recovers, `None` where the tag does not fit.
pub uninterp spec fn xchacha_opened(key: Seq<u8>, nonce: Seq<u8>, ciphertext: Seq<u8>) -> Option<
    Seq<u8>,
>;

/// `chacha20::XChaCha20::new` and `apply_keystream`, from the start of the stream:
/// every byte is combined by exclusive or with the keystream's byte at the same
/// place.
#[verifier::external_body]
pub(crate) fn xchacha20_apply(key: &[u8; 32], nonce: &[u8; 24], data: &mut Vec<u8>)
    requires
        old(data)@.len() <= xchacha_max_len(),
    ensures
        final(data)@.len() == old(data)@.len(),
        forall|i: int|
            0 <= i < old(data)@.len() ==> #[trigger] final(data)@[i] == old(data)@[i]
                ^ xchacha20_keystream(key@, nonce@, i),
{
    let mut cipher = chacha20::XChaCha20::new(key.into(), nonce.into());
    cipher.apply_keystream(data);
}

/// `poly1305::Poly1305::new` and `compute_unpadded`: a function of key and data, 16
/// bytes.
#[verifier::external_body]
pub(crate) fn poly1305_tag(key: &[u8; 32], data: &[u8]) -> (r: [u8; 16])
    ensures
        r@ == poly1305_tag_of(key@, data@),
{
    <poly1305::Poly1305 as MacKeyInit>::new(key.into()).compute_unpadded(data).into()
}

/// `chacha20::hchacha::<R20>`: a function of the key and the input.
#[verifier::external_body]
pub(crate) fn hchacha20(key: &[u8; 32], input: &[u8; 16]) -> (r: [u8; 32])
    ensures
        r@ == hchacha20_of(key@, input@),
{
    chacha20::hchacha::<chacha20::R20>(key.into(), input.into()).into()
}

/// `chacha20poly1305::ChaCha20Poly1305::encrypt` without associated data: a function
/// of the arguments, 16 bytes longer than the plaintext, which opening gives back.
#[verifier::external_body]
pub(crate) fn chacha20poly1305_seal(key: &[u8; 32], nonce: &[u8; 12], plaintext: &[u8]) -> (r:
    Vec<u8>)
    requires
        plaintext@.len() <= chacha_aead_max_plaintext(),
    ensures
        r@ == chacha_sealed(key@, nonce@, plaintext@),
        r@.len() == plaintext@.len() + 16,
        chacha_opened(key@, nonce@, r@) == Some(plaintext@),
{
    let cipher = chacha20poly1305::ChaCha20Poly1305::new(key.into());
    cipher.encrypt(nonce.into(), plaintext).expect("a length within the counter's range")
}

/// `chacha20poly1305::ChaCha20Poly1305::decrypt` without associated data: a function
/// of the arguments; the plaintext is 16 bytes shorter.
#[verifier::external_body]
pub(crate) fn chacha20poly1305_open(key: &[u8; 32], nonce: &[u8; 12], ciphertext: &[u8]) -> (r:
    Option<Vec<u8>>)
    requires
        ciphertext@.len() <= chacha_aead_max_plaintext() + 16,
    ensures
        match r {
            Some(p) => {
                &&& chacha_opened(key@, nonce@, ciphertext@) == Some(p@)
                &&& p@.len() + 16 == ciphertext@.len()
            },
            None => chacha_opened(key@, nonce@, ciphertext@) is None,
        },
{
    let cipher = chacha20poly1305::ChaCha20Poly1305::new(key.into());
    cipher.decrypt(nonce.into(), ciphertext).ok()
}

/// `chacha20poly1305::XChaCha20Poly1305::encrypt` without associated data: a function
/// of the arguments, 16 bytes longer than the plaintext, which opening gives back.
#[verifier::external_body]
pub(crate) fn xchacha20poly1305_seal(key: &[u8; 32], nonce: &[u8; 24], plaintext: &[u8]) -> (r:
    Vec<u8>)
    requires
        plaintext@.len() <= chacha_aead_max_plaintext(),
    ensures
        r@ == xchacha_sealed(key@, nonce@, plaintext@),
        r@.len() == plaintext@.len() + 16,
        xchacha_opened(key@, nonce@, r@) == Some(plaintext@),
{
    let cipher = chacha20poly1305::XChaCha20Poly1305::new(key.into());
    cipher.encrypt(nonce.into(), plaintext).expect("a length within the counter's range")
}

/// `chacha20poly1305::XChaCha20Poly1305::decrypt` without associated data: a function
/// of the arguments; the plaintext is 16 bytes shorter.
#[verifier::external_body]
pub(crate) fn xchacha20poly1305_open(key: &[u8; 32], nonce: &[u8; 24], ciphertext: &[u8]) -> (r:
    Option<Vec<u8>>)
    requires
        ciphertext@.len() <= chacha_aead_max_plaintext() + 16,
    ensures
        match r {
            Some(p) => {
                &&& xchacha_opened(key@, nonce@, ciphertext@) == Some(p@)
                &&& p@.len() + 16 == ciphertext@.len()
            },
            None => xchacha_opened(key@, nonce@, ciphertext@) is None,
        },
{
    let cipher = chacha20poly1305::XChaCha20Poly1305::new(key.into());
    cipher.decrypt(nonce.into(), ciphertext).ok()
}

// ---------------------------------------------------------------------------
// ML-KEM-768
// ---------------------------------------------------------------------------

/// What ML-KEM-768 decapsulates from a ciphertext with a decapsulation key, `None`
/// where either has the wrong length.
pub uninterp spec fn mlkem_decapsulated(secret: Seq<u8>, ciphertext: Seq<u8>) -> Option<Seq<u8>>;

/// The encapsulation key of an ML-KEM-768 decapsulation key.
pub uninterp spec fn mlkem_public_of(secret: Seq<u8>) -> Seq<u8>;

/// Whether encapsulating to an ML-KEM-768 key can give this ciphertext with this secret: for
/// some draw it does.
pub uninterp spec fn mlkem_encapsulates(
    public: Seq<u8>,
    ciphertext: Seq<u8>,
    secret: Seq<u8>,
) -> bool;

/// Where an ML-KEM encapsulation fails.
pub enum KemError {
    BadKey,
    Failed,
}

/// Where generating an ML-KEM key pair fails.
pub enum KemKeyError {
    Generate,
    Encapsulation,
    Export,
}

/// `aws_lc_rs::kem::DecapsulationKey::generate` with `ML_KEM_768`, exported by
/// `key_bytes`, and the matching `encapsulation_key`'s bytes: a fresh pair of a
/// 2400-byte decapsulation key and the 1184-byte encapsulation key that belongs to it.
/// That decapsulating undoes encapsulating is not stated: it holds only up to a
/// negligible failure rate.
#[verifier::external_body]
pub(crate) fn mlkem_generate() -> (r: Result<(Vec<u8>, Vec<u8>), KemKeyError>)
    ensures
        r matches Ok(pair) ==> pair.0@.len() == 2400 && pair.1@.len() == 1184 && pair.1@
            == mlkem_public_of(pair.0@),
{
    let secret = kem::DecapsulationKey::generate(&kem::ML_KEM_768);
    let secret = secret.map_err(|_| KemKeyError::Generate)?;
    let public = secret.encapsulation_key().map_err(|_| KemKeyError::Encapsulation)?;
    let public = public.key_bytes().map_err(|_| KemKeyError::Export)?;
    let secret = secret.key_bytes().map_err(|_| KemKeyError::Export)?;
    Ok((secret.as_ref().to_vec(), public.as_ref().to_vec()))
}

/// `aws_lc_rs::kem::EncapsulationKey::new` with `ML_KEM_768` and `encapsulate`: a
/// fresh ciphertext of 1088 bytes and its 32-byte secret, which encapsulating to this
/// key gives for some draw. A key that has not 1184 bytes is refused. Which draw it was
/// rests on chance, and that decapsulating gives the secret back holds only up to a
/// negligible failure rate, so neither is stated.
#[verifier::external_body]
pub(crate) fn mlkem_encapsulate(public: &[u8]) -> (r: Result<(Vec<u8>, Vec<u8>), KemError>)
    ensures
        r matches Ok(pair) ==> pair.0@.len() == 1088 && pair.1@.len() == 32
            && mlkem_encapsulates(public@, pair.0@, pair.1@),
        public@.len() != 1184 ==> r is Err && r->Err_0 is BadKey,
{
    let key = kem::EncapsulationKey::new(&kem::ML_KEM_768, public);
    let key = key.map_err(|_| KemError::BadKey)?;
    let (ciphertext, secret) = key.encapsulate().map_err(|_| KemError::Failed)?;
    Ok((ciphertext.as_ref().to_vec(), secret.as_ref().to_vec()))
}

/// `aws_lc_rs::kem::DecapsulationKey::new` with `ML_KEM_768` and `decapsulate`: a
/// function of the key's bytes and the ciphertext.
#[verifier::external_body]
pub(crate) fn mlkem_decapsulate(secret: &[u8], ciphertext: &[u8]) -> (r: Option<Vec<u8>>)
    ensures
        match r {
            Some(s) => mlkem_decapsulated(secret@, ciphertext@) == Some(s@),
            None => mlkem_decapsulated(secret@, ciphertext@) is None,
        },
{
    let key = kem::DecapsulationKey::new(&kem::ML_KEM_768, secret).ok()?;
    let shared = key.decapsulate(kem::Ciphertext::from(ciphertext)).ok()?;
    Some(shared.as_ref().to_vec())
}

// ---------------------------------------------------------------------------
// Encodings
// ---------------------------------------------------------------------------

/// The standard, padded Base64 text of some bytes.
pub uninterp spec fn base64_of(data: Seq<u8>) -> Seq<char>;

/// The bytes that a standard, padded Base64 text stands for, `None` where it is no
/// such text.
pub uninterp spec fn base64_decoded(text: Seq<char>) -> Option<Seq<u8>>;

/// The bytes that an unpadded, URL-safe Base64 text stands for, or what is said of a
/// text that is none.
pub uninterp spec fn base64url_decoded(text: Seq<char>) -> Result<Seq<u8>, Seq<char>>;

/// The value of a hexadecimal digit of either case.
pub open spec fn hex_value(c: char) -> Option<int> {
    if '0' <= c && c <= '9' {
        Some(c as int - '0' as int)
    } else if 'a' <= c && c <= 'f' {
        Some(c as int - 'a' as int + 10)
    } else if 'A' <= c && c <= 'F' {
        Some(c as int - 'A' as int + 10)
    } else {
        None
    }
}

/// The lower-case hexadecimal digit for a value below 16.
pub open spec fn hex_digit(v: int) -> char {
    if v < 10 {
        ('0' as int + v) as char
    } else {
        ('a' as int + v - 10) as char
    }
}

/// The lower-case hexadecimal text of some bytes: two digits for each.
pub open spec fn hex_of(data: Seq<u8>) -> Seq<char> {
    Seq::new(
        2 * data.len(),
        |i: int|
            if i % 2 == 0 {
                hex_digit(data[i / 2] as int / 16)
            } else {
                hex_digit(data[i / 2] as int % 16)
            },
    )
}

/// Whether a text is made of pairs of hexadecimal digits.
pub open spec fn is_hex(text: Seq<char>) -> bool {
    text.len() % 2 == 0 && forall|i: int| 0 <= i < text.len() ==> hex_value(#[trigger] text[i]) is Some
}

/// The bytes that pairs of hexadecimal digits stand for.
pub open spec fn hex_bytes(text: Seq<char>) -> Seq<u8> {
    Seq::new(
        text.len() / 2,
        |i: int| (hex_value(text[2 * i])->0 * 16 + hex_value(text[2 * i + 1])->0) as u8,
    )
}

/// `base64ct::Base64::encode_string`: a function of the bytes, which decoding gives
/// back. It panics on inputs longer than a quarter of the address space.
#[verifier::external_body]
pub(crate) fn base64_encode(data: &[u8]) -> (r: String)
    requires
        data@.len() <= usize::MAX / 4,
    ensures
        r@ == base64_of(data@),
        base64_decoded(r@) == Some(data@),
{
    base64ct::Base64::encode_string(data)
}

/// `base64ct::Base64::decode_vec`: a function of the text. It accepts only the one
/// text that encodes the bytes.
#[verifier::external_body]
pub(crate) fn base64_decode(text: &str) -> (r: Option<Vec<u8>>)
    ensures
        match r {
            Some(b) => base64_decoded(text@) == Some(b@) && base64_of(b@) == text@,
            None => base64_decoded(text@) is None,
        },
{
    base64ct::Base64::decode_vec(text).ok()
}

/// `base64ct::Base64UrlUnpadded::decode_vec`, with the error's own text where there is
/// one: a function of the text.
#[verifier::external_body]
pub(crate) fn base64url_decode(text: &str) -> (r: Result<Vec<u8>, String>)
    ensures
        match r {
            Ok(b) => base64url_decoded(text@) is Ok && base64url_decoded(text@)->Ok_0 == b@,
            Err(e) => base64url_decoded(text@) is Err && base64url_decoded(text@)->Err_0 == e@,
        },
{
    base64ct::Base64UrlUnpadded::decode_vec(text).map_err(|e| e.to_string())
}

/// `hex::encode`: two lower-case digits for each byte.
#[verifier::external_body]
pub(crate) fn hex_encode(data: &[u8]) -> (r: String)
    ensures
        r@ == hex_of(data@),
{
    hex::encode(data)
}

/// `base16ct::lower::encode_str`, into a buffer of twice the length: two lower-case digits for
/// each byte.
#[verifier::external_body]
pub(crate) fn base16_encode(data: &[u8; 16]) -> (r: String)
    ensures
        r@ == hex_of(data@),
{
    let mut buf = [0u8; 32];
    base16ct::lower::encode_str(data, &mut buf).expect("a buffer of twice the length").to_string()
}

/// `hex::decode`: it accepts exactly the texts made of pairs of hexadecimal digits of
/// either case, and gives the bytes that they stand for.
#[verifier::external_body]
pub(crate) fn hex_decode(text: &str) -> (r: Option<Vec<u8>>)
    ensures
        match r {
            Some(b) => is_hex(text@) && b@ == hex_bytes(text@),
            None => !is_hex(text@),
        },
{
    hex::decode(text).ok()
}

/// `hex::decode_to_slice` into an array: it accepts exactly the texts made of `2 * N`
/// hexadecimal digits.
#[verifier::external_body]
pub(crate) fn hex_decode_array<const N: usize>(text: &str) -> (r: Option<[u8; N]>)
    ensures
        match r {
            Some(b) => is_hex(text@) && text@.len() == 2 * N && b@ == hex_bytes(text@),
            None => !is_hex(text@) || text@.len() != 2 * N,
        },
{
    let mut out = [0u8; N];
    hex::decode_to_slice(text, &mut out).ok().map(|_| out)
}

/// `String::from_utf8`: the text whose UTF-8 encoding the bytes are, if there is one.
#[verifier::external_body]
pub(crate) fn text_from_utf8(data: Vec<u8>) -> (r: Option<String>)
    ensures
        match r {
            Some(s) => encode_utf8(s@) == data@,
            None => !vstd::utf8::valid_utf8(data@),
        },
{
    String::from_utf8(data).ok()
}

/// The text that some bytes are taken for, with replacement characters where they are no
/// UTF-8.
pub uninterp spec fn utf8_lossy_of(data: Seq<u8>) -> Seq<char>;

/// `String::from_utf8_lossy`: a function of the bytes, and the text itself where they are the
/// encoding of one.
#[verifier::external_body]
pub(crate) fn text_from_utf8_lossy(data: &[u8]) -> (r: String)
    ensures
        r@ == utf8_lossy_of(data@),
        vstd::utf8::valid_utf8(data@) ==> encode_utf8(r@) == data@,
{
    String::from_utf8_lossy(data).into_owned()
}

// ---------------------------------------------------------------------------
// Compression and certificates
// ---------------------------------------------------------------------------

/// What a gzip member decompresses to, or what is said of bytes that are none.
pub uninterp spec fn gunzipped(data: Seq<u8>) -> Result<Seq<u8>, Seq<char>>;

/// The DER bytes of the subject public key info of a DER-encoded X.509 certificate,
/// `None` where the bytes are no certificate.
pub uninterp spec fn spki_of(der: Seq<u8>) -> Option<Seq<u8>>;

/// Where compressing fails, with the error's own text.
pub enum GzipError {
    Write(String),
    Finish(String),
}

/// What bytes are compressed to, or, where compressing fails, whether it was finishing that
/// failed and what is said of it.
pub uninterp spec fn gzipped(data: Seq<u8>) -> Result<Seq<u8>, (bool, Seq<char>)>;

/// `flate2::write::GzEncoder` at the default level, written to and finished: a function of the
/// bytes, since its header holds no time and its writer is a vector. What comes out
/// decompresses to `data`.
#[verifier::external_body]
pub(crate) fn gzip(data: &[u8]) -> (r: Result<Vec<u8>, GzipError>)
    ensures
        match r {
            Ok(z) => {
                &&& gzipped(data@) is Ok
                &&& gzipped(data@)->Ok_0 == z@
                &&& gunzipped(z@) is Ok
                &&& gunzipped(z@)->Ok_0 == data@
            },
            Err(GzipError::Write(e)) => gzipped(data@) is Err && gzipped(data@)->Err_0 == (
                false,
                e@,
            ),
            Err(GzipError::Finish(e)) => gzipped(data@) is Err && gzipped(data@)->Err_0 == (
                true,
                e@,
            ),
        },
{
    let mut encoder = flate2::write::GzEncoder::new(Vec::new(), flate2::Compression::default());
    encoder.write_all(data).map_err(|e| GzipError::Write(e.to_string()))?;
    encoder.finish().map_err(|e| GzipError::Finish(e.to_string()))
}

/// `flate2::read::GzDecoder` read to its end, with the error's own text where there is one:
/// a function of the bytes.
#[verifier::external_body]
pub(crate) fn gunzip(data: &[u8]) -> (r: Result<Vec<u8>, String>)
    ensures
        match r {
            Ok(b) => gunzipped(data@) is Ok && gunzipped(data@)->Ok_0 == b@,
            Err(e) => gunzipped(data@) is Err && gunzipped(data@)->Err_0 == e@,
        },
{
    let mut out = Vec::new();
    let read = flate2::read::GzDecoder::new(data).read_to_end(&mut out);
    read.map(|_| out).map_err(|e| e.to_string())
}

/// `x509_parser::certificate::X509Certificate::from_der`, of which the raw bytes of the
/// subject public key info are kept: a function of the bytes.
#[verifier::external_body]
pub(crate) fn certificate_spki(der: &[u8]) -> (r: Option<Vec<u8>>)
    ensures
        match r {
            Some(s) => spki_of(der@) == Some(s@),
            None => spki_of(der@) is None,
        },
{
    let (_, cert) = x509_parser::certificate::X509Certificate::from_der(der).ok()?;
    Some(cert.tbs_certificate.subject_pki.raw.to_vec())
}

} // verus!
