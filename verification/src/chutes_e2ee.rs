//! End-to-end encryption towards an enclave of Chutes: a post-quantum key encapsulation, a
//! key for each direction, and compressed payloads.

use vstd::prelude::*;
use vstd::utf8::encode_utf8;

use crate::bytes::array_at;
use crate::bytes::copy_bytes;
use crate::bytes::push_all;
use crate::bytes::zeros;
use crate::json::lemma_object_view;
use crate::json::set_field;
use crate::json::with_field;
use crate::json::Json;
use crate::json::JsonValue;
use crate::primitives::base64_decode;
use crate::primitives::base64_decoded;
use crate::primitives::base64_encode;
use crate::primitives::base64_of;
use crate::primitives::chacha20poly1305_open;
use crate::primitives::chacha20poly1305_seal;
use crate::primitives::chacha_opened;
use crate::primitives::chacha_sealed;
use crate::primitives::gen_random_bytes;
use crate::primitives::gunzip;
use crate::primitives::gunzipped;
use crate::primitives::gzipped;
use crate::primitives::gzip;
use crate::primitives::hkdf_sha256;
use crate::primitives::hkdf_sha256_of;
use crate::primitives::mlkem_decapsulate;
use crate::primitives::mlkem_decapsulated;
use crate::primitives::mlkem_encapsulate;
use crate::primitives::mlkem_encapsulates;
use crate::primitives::mlkem_generate;
use crate::primitives::mlkem_public_of;
use crate::primitives::text_from_utf8;
use crate::primitives::zeroize_array;
use crate::primitives::zeroize_vec;
use crate::primitives::GzipError;
use crate::primitives::KemError;
use crate::primitives::KemKeyError;
use crate::text;

verus! {

/// The length of an encapsulated key.
pub const MLKEM_CT_SIZE: usize = 1088;

/// The length of the shortest answer: an encapsulated key, a nonce and a tag.
pub const MIN_RESPONSE_LEN: usize = 1116;

/// The longest ciphertext that the cipher opens.
pub const MAX_SEALED: u64 = 274877906832;

/// The longest plaintext that the cipher seals.
pub const MAX_PLAIN: u64 = 274877906816;

/// What requests are keyed for.
pub open spec fn info_request() -> Seq<char> {
    "e2e-req-v1"@
}

/// What answers are keyed for.
pub open spec fn info_response() -> Seq<char> {
    "e2e-resp-v1"@
}

/// What streams are keyed for.
pub open spec fn info_stream() -> Seq<char> {
    "e2e-stream-v1"@
}

/// The key for a purpose: derived from the encapsulated secret, with the start of its
/// ciphertext as salt.
pub open spec fn key_for(shared: Seq<u8>, ciphertext: Seq<u8>, info: Seq<char>) -> Seq<u8> {
    hkdf_sha256_of(
        ciphertext.take(if ciphertext.len() < 16 {
            ciphertext.len() as int
        } else {
            16
        }),
        shared,
        encode_utf8(info),
    )
}

/// Derives the key for a purpose.
pub fn derive_key(shared: &[u8], ciphertext: &[u8], info: &str) -> (r: [u8; 32])
    ensures
        r@ == key_for(shared@, ciphertext@, info@),
{
    let n: usize = if ciphertext.len() < 16 {
        ciphertext.len()
    } else {
        16
    };
    let salt = copy_bytes(ciphertext, 0, n);
    proof {
        assert(salt@ =~= ciphertext@.take(n as int));
    }
    hkdf_sha256(salt.as_slice(), shared, info.as_bytes())
}

/// Some bytes encrypted: the nonce, then the ciphertext with its tag.
pub open spec fn box_of(key: Seq<u8>, nonce: Seq<u8>, plaintext: Seq<u8>) -> Seq<u8> {
    nonce + chacha_sealed(key, nonce, plaintext)
}

/// What is in a box, or why it cannot be opened.
pub open spec fn box_outcome(key: Seq<u8>, data: Seq<u8>) -> Result<Seq<u8>, Seq<char>> {
    if data.len() < 28 {
        Err("Ciphertext too short for ChaCha20-Poly1305"@)
    } else if data.len() - 12 > MAX_SEALED {
        Err("ChaCha20 decryption/auth failed"@)
    } else {
        match chacha_opened(key, data.take(12), data.skip(12)) {
            Some(p) => Ok(p),
            None => Err("ChaCha20 decryption/auth failed"@),
        }
    }
}

/// Encrypts some bytes under a nonce. Opening gives them back.
pub fn chacha_encrypt_with(key: &[u8; 32], nonce: &[u8; 12], plaintext: &[u8]) -> (r: Result<
    Vec<u8>,
    String,
>)
    ensures
        match r {
            Ok(data) => {
                &&& plaintext@.len() <= MAX_PLAIN
                &&& data@ == box_of(key@, nonce@, plaintext@)
                &&& data@.len() == plaintext@.len() + 28
                &&& box_outcome(key@, data@) == Ok::<Seq<u8>, Seq<char>>(plaintext@)
            },
            Err(e) => plaintext@.len() > MAX_PLAIN && e@ == "ChaCha20 encryption failed"@,
        },
{
    if plaintext.len() as u64 > MAX_PLAIN {
        return Err("ChaCha20 encryption failed".to_string());
    }
    let sealed = chacha20poly1305_seal(key, nonce, plaintext);
    let mut out: Vec<u8> = Vec::new();
    push_all(&mut out, nonce.as_slice());
    push_all(&mut out, sealed.as_slice());
    proof {
        assert(out@ =~= nonce@ + sealed@);
        assert(out@.take(12) =~= nonce@);
        assert(out@.skip(12) =~= sealed@);
    }
    Ok(out)
}

/// Opens a box.
pub fn chacha_decrypt(key: &[u8; 32], data: &[u8]) -> (r: Result<Vec<u8>, String>)
    ensures
        match r {
            Ok(p) => box_outcome(key@, data@) is Ok && box_outcome(key@, data@)->Ok_0 == p@,
            Err(e) => box_outcome(key@, data@) == Err::<Seq<u8>, Seq<char>>(e@),
        },
{
    let len: usize = data.len();
    if len < 28 {
        return Err("Ciphertext too short for ChaCha20-Poly1305".to_string());
    }
    if (len - 12) as u64 > MAX_SEALED {
        return Err("ChaCha20 decryption/auth failed".to_string());
    }
    let nonce: [u8; 12] = array_at(data, 0);
    proof {
        assert(nonce@ =~= data@.take(12));
        assert(data@.subrange(12, data@.len() as int) =~= data@.skip(12));
    }
    match chacha20poly1305_open(key, &nonce, &data[12..len]) {
        Some(p) => Ok(p),
        None => Err("ChaCha20 decryption/auth failed".to_string()),
    }
}

// ---------------------------------------------------------------------------
// Requests
// ---------------------------------------------------------------------------

/// The keys with which an answer is encrypted: the decapsulation key that stays here, and
/// the encapsulation key, in Base64, that goes with the request.
pub struct ResponseKeys {
    pub secret: Vec<u8>,
    pub public_b64: String,
}

/// An encrypted request, and the key that its answer is read with.
pub struct ChutesE2eeRequest {
    pub blob: Vec<u8>,
    pub response_sk: Vec<u8>,
}

/// What is said of key pairs that cannot be made.
pub open spec fn key_failure(e: KemKeyError) -> Seq<char> {
    match e {
        KemKeyError::Generate => "ML-KEM-768 response keypair generation failed"@,
        KemKeyError::Encapsulation => "Failed to derive response encapsulation key"@,
        KemKeyError::Export => "Failed to export response public key bytes"@,
    }
}

/// The keys for an answer out of a pair of a decapsulation and an encapsulation key, or what
/// is said where there is no pair.
pub fn response_keys_from(made: Result<(Vec<u8>, Vec<u8>), KemKeyError>) -> (r: Result<
    ResponseKeys,
    String,
>)
    requires
        made matches Ok(pair) ==> pair.1@.len() <= usize::MAX / 4,
    ensures
        match made {
            Ok(pair) => r is Ok && r->Ok_0.secret@ == pair.0@ && r->Ok_0.public_b64@ == base64_of(
                pair.1@,
            ),
            Err(e) => r is Err && r->Err_0@ == key_failure(e),
        },
{
    match made {
        Ok(pair) => {
            let public_b64 = base64_encode(pair.1.as_slice());
            Ok(ResponseKeys { secret: pair.0, public_b64 })
        },
        Err(KemKeyError::Generate) => Err(
            "ML-KEM-768 response keypair generation failed".to_string(),
        ),
        Err(KemKeyError::Encapsulation) => Err(
            "Failed to derive response encapsulation key".to_string(),
        ),
        Err(KemKeyError::Export) => Err("Failed to export response public key bytes".to_string()),
    }
}

/// Fresh keys for an answer. It fails only where no key pair can be made.
pub fn response_keys() -> (r: Result<ResponseKeys, String>)
    ensures
        r matches Ok(k) ==> k.secret@.len() == 2400 && k.public_b64@ == base64_of(
            mlkem_public_of(k.secret@),
        ),
        r matches Err(e) ==> exists|why: KemKeyError| e@ == #[trigger] key_failure(why),
{
    response_keys_from(mlkem_generate())
}

/// A payload that says under which key the answer is wanted.
pub open spec fn payload_with_key(payload: JsonValue, public: Seq<char>) -> JsonValue {
    match payload {
        JsonValue::Obj(fields) => JsonValue::Obj(
            with_field(fields, "e2e_response_pk"@, JsonValue::Str(public)),
        ),
        _ => payload,
    }
}

/// Adds to a payload under which key the answer is wanted.
pub fn with_response_key(payload: Json, public_b64: &str) -> (r: Json)
    ensures
        r@ == payload_with_key(payload@, public_b64@),
{
    match payload {
        Json::Obj(fields) => {
            let mut fields = fields;
            proof {
                lemma_object_view(fields);
            }
            set_field(&mut fields, "e2e_response_pk", Json::Str(public_b64.to_string()));
            proof {
                lemma_object_view(fields);
            }
            Json::Obj(fields)
        },
        _ => payload,
    }
}

/// What the owner of an encapsulated secret reads out of a request.
pub open spec fn request_read(blob: Seq<u8>, shared: Seq<u8>) -> Option<Seq<u8>> {
    if blob.len() < MLKEM_CT_SIZE {
        None
    } else {
        let ciphertext = blob.take(MLKEM_CT_SIZE as int);
        match box_outcome(
            key_for(shared, ciphertext, info_request()),
            blob.skip(MLKEM_CT_SIZE as int),
        ) {
            Ok(compressed) => match gunzipped(compressed) {
                Ok(json) => Some(json),
                Err(_) => None,
            },
            Err(_) => None,
        }
    }
}

/// A request: the encapsulated key, then the compressed payload in a box.
pub open spec fn sealed_request(
    ciphertext: Seq<u8>,
    shared: Seq<u8>,
    nonce: Seq<u8>,
    compressed: Seq<u8>,
) -> Seq<u8> {
    ciphertext + box_of(key_for(shared, ciphertext, info_request()), nonce, compressed)
}

/// What is said of a payload that cannot be compressed.
pub open spec fn gzip_failure(e: GzipError) -> Seq<char> {
    match e {
        GzipError::Write(why) => "Gzip compress write: "@ + why@,
        GzipError::Finish(why) => "Gzip compress finish: "@ + why@,
    }
}

/// What is said of a payload that cannot be compressed, by whether it was finishing that
/// failed and what the compressor says.
pub open spec fn compress_failure(why: (bool, Seq<char>)) -> Seq<char> {
    (if why.0 {
        "Gzip compress finish: "@
    } else {
        "Gzip compress write: "@
    }) + why.1
}

/// What becomes of a payload, given an encapsulated secret and a nonce: it is compressed and
/// sealed, unless compressing fails or the compressed payload is longer than the cipher takes.
pub open spec fn request_outcome(
    ciphertext: Seq<u8>,
    shared: Seq<u8>,
    nonce: Seq<u8>,
    json: Seq<u8>,
) -> Result<Seq<u8>, Seq<char>> {
    match gzipped(json) {
        Ok(z) => if z.len() <= MAX_PLAIN {
            Ok(sealed_request(ciphertext, shared, nonce, z))
        } else {
            Err("ChaCha20 encryption failed"@)
        },
        Err(why) => Err(compress_failure(why)),
    }
}

/// Seals what compressing a payload came to, given an encapsulated secret and a nonce. Whoever
/// decapsulates the secret reads what the compressed bytes stand for.
pub fn seal_compressed(
    ciphertext: &[u8],
    shared: &[u8],
    nonce: &[u8; 12],
    compressed: Result<Vec<u8>, GzipError>,
) -> (r: Result<Vec<u8>, String>)
    requires
        ciphertext@.len() == MLKEM_CT_SIZE,
    ensures
        match compressed {
            Ok(z) => if z@.len() <= MAX_PLAIN {
                &&& r is Ok
                &&& r->Ok_0@ == sealed_request(ciphertext@, shared@, nonce@, z@)
                &&& r->Ok_0@.len() == MIN_RESPONSE_LEN + z@.len()
                &&& r->Ok_0@.take(MLKEM_CT_SIZE as int) == ciphertext@
                &&& r->Ok_0@.subrange(1088, 1100) == nonce@
                &&& gunzipped(z@) is Ok ==> request_read(r->Ok_0@, shared@) == Some(
                    gunzipped(z@)->Ok_0,
                )
            } else {
                r is Err && r->Err_0@ == "ChaCha20 encryption failed"@
            },
            Err(e) => r is Err && r->Err_0@ == gzip_failure(e),
        },
{
    let compressed = match compressed {
        Ok(z) => z,
        Err(GzipError::Write(e)) => {
            return Err(text::cat2("Gzip compress write: ", e.as_str()));
        },
        Err(GzipError::Finish(e)) => {
            return Err(text::cat2("Gzip compress finish: ", e.as_str()));
        },
    };
    let mut key = derive_key(shared, ciphertext, "e2e-req-v1");
    let encrypted = chacha_encrypt_with(&key, nonce, compressed.as_slice());
    zeroize_array(&mut key);
    match encrypted {
        Ok(data) => {
            let mut blob: Vec<u8> = Vec::new();
            push_all(&mut blob, ciphertext);
            push_all(&mut blob, data.as_slice());
            proof {
                assert(blob@ =~= ciphertext@ + data@);
                assert(blob@.take(1088) =~= ciphertext@);
                assert(blob@.skip(1088) =~= data@);
                assert(blob@.subrange(1088, 1100) =~= nonce@);
            }
            Ok(blob)
        },
        Err(e) => Err(e),
    }
}

/// Seals a payload, given an encapsulated secret and a nonce. Whoever decapsulates the secret
/// reads the payload back. It fails only where compressing does, or where the compressed
/// payload is longer than the cipher takes.
pub fn seal_request(ciphertext: &[u8], shared: &[u8], nonce: &[u8; 12], json: &[u8]) -> (r: Result<
    Vec<u8>,
    String,
>)
    requires
        ciphertext@.len() == MLKEM_CT_SIZE,
    ensures
        match r {
            Ok(blob) => {
                &&& request_outcome(ciphertext@, shared@, nonce@, json@) is Ok
                &&& request_outcome(ciphertext@, shared@, nonce@, json@)->Ok_0 == blob@
                &&& blob@.len() >= MIN_RESPONSE_LEN
                &&& blob@.take(MLKEM_CT_SIZE as int) == ciphertext@
                &&& blob@.subrange(1088, 1100) == nonce@
                &&& request_read(blob@, shared@) == Some(json@)
            },
            Err(e) => request_outcome(ciphertext@, shared@, nonce@, json@) is Err
                && request_outcome(ciphertext@, shared@, nonce@, json@)->Err_0 == e@,
        },
{
    let compressed = gzip(json);
    seal_compressed(ciphertext, shared, nonce, compressed)
}

/// What is said of a secret that cannot be encapsulated.
pub open spec fn encapsulation_failure(e: KemError) -> Seq<char> {
    match e {
        KemError::BadKey => "Invalid ML-KEM-768 public key from instance"@,
        KemError::Failed => "ML-KEM-768 encapsulation failed"@,
    }
}

/// Builds an encrypted request out of what encapsulating a secret gave, a ciphertext and the
/// secret in it, and of the nonce that was drawn, if one was.
pub fn request_from(
    made: Result<(Vec<u8>, Vec<u8>), KemError>,
    drawn: Option<[u8; 12]>,
    json: &[u8],
    response_sk: Vec<u8>,
) -> (r: Result<ChutesE2eeRequest, String>)
    requires
        made matches Ok(pair) ==> pair.0@.len() == MLKEM_CT_SIZE,
    ensures
        match (made, drawn) {
            (Err(e), _) => r is Err && r->Err_0@ == encapsulation_failure(e),
            (Ok(_), None) => r is Err && r->Err_0@ == "ChaCha20 encryption failed"@,
            (Ok(pair), Some(nonce)) => match request_outcome(pair.0@, pair.1@, nonce@, json@) {
                Ok(blob) => {
                    &&& r is Ok
                    &&& r->Ok_0.blob@ == blob
                    &&& r->Ok_0.response_sk@ == response_sk@
                    &&& blob.len() >= MIN_RESPONSE_LEN
                    &&& blob.take(MLKEM_CT_SIZE as int) == pair.0@
                    &&& request_read(blob, pair.1@) == Some(json@)
                },
                Err(e) => r is Err && r->Err_0@ == e,
            },
        },
{
    let (ciphertext, mut shared) = match made {
        Ok(pair) => pair,
        Err(KemError::BadKey) => {
            return Err("Invalid ML-KEM-768 public key from instance".to_string());
        },
        Err(KemError::Failed) => {
            return Err("ML-KEM-768 encapsulation failed".to_string());
        },
    };
    let nonce = match drawn {
        Some(n) => n,
        None => {
            zeroize_vec(&mut shared);
            return Err("ChaCha20 encryption failed".to_string());
        },
    };
    let sealed = seal_request(ciphertext.as_slice(), shared.as_slice(), &nonce, json);
    zeroize_vec(&mut shared);
    match sealed {
        Ok(blob) => Ok(ChutesE2eeRequest { blob, response_sk }),
        Err(e) => Err(e),
    }
}

/// Whether a request to an instance with a key of full length may fail with an error: the key
/// can be refused, encapsulating or drawing a nonce can fail, and compressing the payload can
/// fail or give more than the cipher takes.
pub open spec fn request_failure(e: Seq<char>, json: Seq<u8>) -> bool {
    ||| exists|why: KemError| e == #[trigger] encapsulation_failure(why)
    ||| e == "ChaCha20 encryption failed"@
    ||| gzipped(json) is Err && e == compress_failure(gzipped(json)->Err_0)
}

/// Whether the compressed form of a payload can be sealed.
pub open spec fn can_seal(json: Seq<u8>) -> bool {
    gzipped(json) is Ok && gzipped(json)->Ok_0.len() <= MAX_PLAIN
}

/// Builds an encrypted request to an instance: a secret encapsulated to its public key, and
/// the payload sealed with it, for whoever decapsulates the secret to read.
pub fn build_e2ee_request(e2e_pubkey_b64: &str, json: &[u8], response_sk: Vec<u8>) -> (r: Result<
    ChutesE2eeRequest,
    String,
>)
    ensures
        match base64_decoded(e2e_pubkey_b64@) {
            None => r is Err && r->Err_0@ == "Invalid base64 in instance e2e_pubkey"@,
            Some(public) => if public.len() != 1184 {
                r is Err && r->Err_0@ == "Invalid ML-KEM-768 public key from instance"@
            } else {
                r matches Err(e) ==> request_failure(e@, json@)
            },
        },
        r is Ok ==> can_seal(json@),
        r matches Ok(q) ==> q.response_sk@ == response_sk@ && q.blob@.len() >= MIN_RESPONSE_LEN
            && exists|shared: Seq<u8>, nonce: Seq<u8>|
            {
                &&& nonce.len() == 12
                &&& mlkem_encapsulates(
                    base64_decoded(e2e_pubkey_b64@)->0,
                    q.blob@.take(MLKEM_CT_SIZE as int),
                    shared,
                )
                &&& q.blob@ == #[trigger] sealed_request(
                    q.blob@.take(MLKEM_CT_SIZE as int),
                    shared,
                    nonce,
                    gzipped(json@)->Ok_0,
                )
                &&& request_read(q.blob@, shared) == Some(json@)
            },
{
    let public = match base64_decode(e2e_pubkey_b64) {
        Some(b) => b,
        None => {
            return Err("Invalid base64 in instance e2e_pubkey".to_string());
        },
    };
    let made = mlkem_encapsulate(public.as_slice());
    let drawn = gen_random_bytes::<12>();
    let ghost pair = made;
    let built = request_from(made, drawn, json, response_sk);
    let ghost given = built;
    proof {
        match (pair, drawn, given) {
            (Ok(p), Some(nonce), Ok(q)) => {
                assert(nonce@.len() == 12);
                assert(q.blob@ == sealed_request(p.0@, p.1@, nonce@, gzipped(json@)->Ok_0));
            },
            (Err(e), _, _) => {
                assert(given->Err_0@ == encapsulation_failure(e));
            },
            _ => {},
        }
    }
    built
}

// ---------------------------------------------------------------------------
// Answers
// ---------------------------------------------------------------------------

/// What an answer says, still encoded as JSON, or why it cannot be read.
pub open spec fn response_outcome(blob: Seq<u8>, secret: Seq<u8>) -> Result<Seq<u8>, Seq<char>> {
    if blob.len() < MIN_RESPONSE_LEN {
        Err(
            "Response blob too short: "@ + text::decimal(blob.len()) + " bytes (minimum 1116)"@,
        )
    } else {
        let ciphertext = blob.take(MLKEM_CT_SIZE as int);
        match mlkem_decapsulated(secret, ciphertext) {
            None => Err("ML-KEM-768 decapsulation failed"@),
            Some(shared) => match box_outcome(
                key_for(shared, ciphertext, info_response()),
                blob.skip(MLKEM_CT_SIZE as int),
            ) {
                Err(e) => Err(e),
                Ok(compressed) => match gunzipped(compressed) {
                    Ok(json) => Ok(json),
                    Err(e) => Err("Gzip decompress: "@ + e),
                },
            },
        }
    }
}

/// Reads an answer, which stays encoded as JSON.
pub fn decrypt_response(blob: &[u8], response_sk: &[u8]) -> (r: Result<Vec<u8>, String>)
    ensures
        match r {
            Ok(json) => response_outcome(blob@, response_sk@) is Ok && response_outcome(
                blob@,
                response_sk@,
            )->Ok_0 == json@,
            Err(e) => response_outcome(blob@, response_sk@) == Err::<Seq<u8>, Seq<char>>(e@),
        },
{
    let len: usize = blob.len();
    if len < MIN_RESPONSE_LEN {
        let n = text::decimal_of(len as u64);
        return Err(text::cat3("Response blob too short: ", n.as_str(), " bytes (minimum 1116)"));
    }
    let ciphertext = copy_bytes(blob, 0, MLKEM_CT_SIZE);
    proof {
        assert(ciphertext@ =~= blob@.take(1088));
        assert(blob@.subrange(1088, blob@.len() as int) =~= blob@.skip(1088));
    }
    let mut shared = match mlkem_decapsulate(response_sk, ciphertext.as_slice()) {
        Some(s) => s,
        None => {
            return Err("ML-KEM-768 decapsulation failed".to_string());
        },
    };
    let mut key = derive_key(shared.as_slice(), ciphertext.as_slice(), "e2e-resp-v1");
    zeroize_vec(&mut shared);
    let opened = chacha_decrypt(&key, &blob[MLKEM_CT_SIZE..len]);
    zeroize_array(&mut key);
    match opened {
        Err(e) => Err(e),
        Ok(compressed) => match gunzip(compressed.as_slice()) {
            Ok(json) => Ok(json),
            Err(e) => Err(text::cat2("Gzip decompress: ", e.as_str())),
        },
    }
}

/// The key of a stream, or why it cannot be had.
pub open spec fn stream_key_outcome(secret: Seq<u8>, ciphertext_b64: Seq<char>) -> Result<
    Seq<u8>,
    Seq<char>,
> {
    match base64_decoded(ciphertext_b64) {
        None => Err("Invalid base64 in e2e_init ML-KEM ciphertext"@),
        Some(ciphertext) => match mlkem_decapsulated(secret, ciphertext) {
            None => Err("ML-KEM-768 decapsulation failed for stream init"@),
            Some(shared) => Ok(key_for(shared, ciphertext, info_stream())),
        },
    }
}

/// The key of a stream. It is wiped when it is dropped.
pub struct StreamKey {
    pub bytes: [u8; 32],
}

impl Drop for StreamKey {
    /// Wipes the key.
    fn drop(&mut self)
        ensures
            final(self).bytes@ == zeros(32),
        opens_invariants none
        no_unwind
    {
        zeroize_array(&mut self.bytes);
    }
}

/// Reads the key of a stream out of its first event.
pub fn decrypt_stream_init(response_sk: &[u8], mlkem_ct_b64: &str) -> (r: Result<StreamKey, String>)
    ensures
        match r {
            Ok(k) => stream_key_outcome(response_sk@, mlkem_ct_b64@) == Ok::<Seq<u8>, Seq<char>>(
                k.bytes@,
            ),
            Err(e) => stream_key_outcome(response_sk@, mlkem_ct_b64@) == Err::<
                Seq<u8>,
                Seq<char>,
            >(e@),
        },
{
    let ciphertext = match base64_decode(mlkem_ct_b64) {
        Some(c) => c,
        None => {
            return Err("Invalid base64 in e2e_init ML-KEM ciphertext".to_string());
        },
    };
    match mlkem_decapsulate(response_sk, ciphertext.as_slice()) {
        Some(shared) => {
            let mut shared = shared;
            let key = derive_key(shared.as_slice(), ciphertext.as_slice(), "e2e-stream-v1");
            zeroize_vec(&mut shared);
            Ok(StreamKey { bytes: key })
        },
        None => Err("ML-KEM-768 decapsulation failed for stream init".to_string()),
    }
}

/// What a piece of a stream says, or why it cannot be read.
pub open spec fn chunk_outcome(chunk_b64: Seq<char>, key: Seq<u8>) -> Result<Seq<char>, Seq<char>> {
    match base64_decoded(chunk_b64) {
        None => Err("Invalid base64 in e2e stream chunk"@),
        Some(raw) => match box_outcome(key, raw) {
            Err(e) => Err(e),
            Ok(plaintext) => if vstd::utf8::valid_utf8(plaintext) {
                Ok(vstd::utf8::decode_utf8(plaintext))
            } else {
                Err("Decrypted stream chunk is not valid UTF-8"@)
            },
        },
    }
}

/// Reads a piece of a stream.
pub fn decrypt_stream_chunk(enc_chunk_b64: &str, stream_key: &[u8; 32]) -> (r: Result<
    String,
    String,
>)
    ensures
        match r {
            Ok(t) => chunk_outcome(enc_chunk_b64@, stream_key@) == Ok::<Seq<char>, Seq<char>>(t@),
            Err(e) => chunk_outcome(enc_chunk_b64@, stream_key@) == Err::<Seq<char>, Seq<char>>(
                e@,
            ),
        },
{
    let raw = match base64_decode(enc_chunk_b64) {
        Some(b) => b,
        None => {
            return Err("Invalid base64 in e2e stream chunk".to_string());
        },
    };
    match chacha_decrypt(stream_key, raw.as_slice()) {
        Err(e) => Err(e),
        Ok(plaintext) => match text_from_utf8(plaintext) {
            Some(t) => {
                proof {
                    vstd::utf8::encode_utf8_decode_utf8(t@);
                    vstd::utf8::encode_utf8_valid_utf8(t@);
                }
                Ok(t)
            },
            None => Err("Decrypted stream chunk is not valid UTF-8".to_string()),
        },
    }
}

} // verus!
