use aws_lc_rs::aead;
use aws_lc_rs::hkdf;
use aws_lc_rs::signature::KeyPair;
use base64ct::Encoding;
use chacha20poly1305::aead::Aead;
use chacha20poly1305::aead::KeyInit;
use std::io::Read;

use deadrouter::chutes_e2ee::build_e2ee_request;
use deadrouter::chutes_e2ee::chacha_decrypt;
use deadrouter::chutes_e2ee::chacha_encrypt_with;
use deadrouter::chutes_e2ee::decrypt_response;
use deadrouter::chutes_e2ee::decrypt_stream_chunk;
use deadrouter::chutes_e2ee::decrypt_stream_init;
use deadrouter::chutes_e2ee::derive_key;
use deadrouter::chutes_e2ee::request_from;
use deadrouter::chutes_e2ee::response_keys;
use deadrouter::chutes_e2ee::response_keys_from;
use deadrouter::chutes_e2ee::seal_compressed;
use deadrouter::chutes_e2ee::seal_request;
use deadrouter::chutes_e2ee::with_response_key;
use deadrouter::crypto_e2ee::decrypt_ticket;
use deadrouter::crypto_e2ee::generate_ticket;
use deadrouter::crypto_e2ee::ticket_for;
use deadrouter::crypto_e2ee::E2eeSession;
use deadrouter::crypto_e2ee::ServerSecret;
use deadrouter::crypto_e2ee::StreamRatchet;
use deadrouter::crypto_e2ee::TicketSecrets;
use deadrouter::json::Json;
use deadrouter::nearai_e2ee::v2_decrypt;
use deadrouter::nearai_e2ee::v2_encrypt;
use deadrouter::nearai_e2ee::v2_encrypt_from;
use deadrouter::nearai_e2ee::v2_encrypt_with;
use deadrouter::primitives::gen_random_bytes;
use deadrouter::primitives::AgreementError;
use deadrouter::primitives::GzipError;
use deadrouter::primitives::KemError;
use deadrouter::primitives::KemKeyError;

fn b64(data: &[u8]) -> String {
    base64ct::Base64::encode_string(data)
}

fn unb64(text: &str) -> Vec<u8> {
    base64ct::Base64::decode_vec(text).unwrap()
}

fn derived(salt: &[u8], secret: &[u8], info: &[u8]) -> [u8; 32] {
    let prk = hkdf::Salt::new(hkdf::HKDF_SHA256, salt).extract(secret);
    let infos = [info];
    let okm = prk.expand(&infos, hkdf::HKDF_SHA256).unwrap();
    let mut key = [0u8; 32];
    okm.fill(&mut key).unwrap();
    key
}

fn gcm(key: &[u8; 32]) -> aead::LessSafeKey {
    aead::LessSafeKey::new(aead::UnboundKey::new(&aead::AES_256_GCM, key).unwrap())
}

fn sealed(key: &[u8; 32], nonce: [u8; 12], aad: &[u8], plain: &[u8]) -> Vec<u8> {
    let mut data = plain.to_vec();
    gcm(key)
        .seal_in_place_append_tag(aead::Nonce::assume_unique_for_key(nonce), aead::Aad::from(aad), &mut data)
        .unwrap();
    let mut out = nonce.to_vec();
    out.extend_from_slice(&data);
    out
}

fn opened(key: &[u8; 32], aad: &[u8], payload: &[u8]) -> Vec<u8> {
    let mut nonce = [0u8; 12];
    nonce.copy_from_slice(&payload[..12]);
    let mut data = payload[12..].to_vec();
    gcm(key)
        .open_in_place(aead::Nonce::assume_unique_for_key(nonce), aead::Aad::from(aad), &mut data)
        .unwrap()
        .to_vec()
}

fn public_of(secret: [u8; 32]) -> [u8; 32] {
    x25519_dalek::PublicKey::from(&x25519_dalek::StaticSecret::from(secret)).to_bytes()
}

fn agreed(secret: [u8; 32], public: [u8; 32]) -> [u8; 32] {
    x25519_dalek::StaticSecret::from(secret)
        .diffie_hellman(&x25519_dalek::PublicKey::from(public))
        .to_bytes()
}

#[test]
fn random_bytes_are_drawn() {
    let a = gen_random_bytes::<32>().unwrap();
    let b = gen_random_bytes::<32>().unwrap();
    assert_ne!(a, b);
}

// Tickets

#[test]
fn tickets_give_their_secret_back() {
    let mut secrets = TicketSecrets { current: [1u8; 32], previous: [2u8; 32] };
    let secret = [77u8; 32];
    let ticket = ticket_for(&secrets, &secret, &[9u8; 12]);
    assert_eq!(unb64(&ticket.public_key), public_of(secret));
    assert_eq!(unb64(&ticket.encrypted_private_key), sealed(&[1u8; 32], [9u8; 12], b"", &secret));
    assert_eq!(decrypt_ticket(&secrets, &ticket.encrypted_private_key).unwrap().bytes, secret);

    // A ticket outlives one rotation and no more.
    secrets.rotate_to([3u8; 32]);
    assert_eq!(secrets.previous, [1u8; 32]);
    assert_eq!(decrypt_ticket(&secrets, &ticket.encrypted_private_key).unwrap().bytes, secret);
    assert!(secrets.rotate());
    assert_eq!(secrets.previous, [3u8; 32]);
    assert_eq!(
        decrypt_ticket(&secrets, &ticket.encrypted_private_key).err().unwrap(),
        "Ticket decryption failed (expired or invalid)"
    );
}

#[test]
fn bad_tickets_are_refused() {
    let mut secrets = TicketSecrets::new().unwrap();
    assert_ne!(secrets.current, secrets.previous);
    assert_eq!(decrypt_ticket(&secrets, "***").err().unwrap(), "Invalid base64");
    assert_eq!(decrypt_ticket(&secrets, &b64(&[0u8; 59])).err().unwrap(), "Invalid ticket length");
    let ticket = generate_ticket(&secrets).unwrap();
    let secret = decrypt_ticket(&secrets, &ticket.encrypted_private_key).unwrap();
    assert_eq!(unb64(&ticket.public_key), public_of(secret.bytes));
    let copied = secrets.clone();
    assert_eq!((copied.current, copied.previous), (secrets.current, secrets.previous));
    secrets.zeroize();
    assert_eq!(secrets.current, [0u8; 32]);
    assert_eq!(secrets.previous, [0u8; 32]);
}

// Messages and answers of a session

fn session(server: [u8; 32], client: [u8; 32]) -> E2eeSession {
    E2eeSession::new(ServerSecret { bytes: server }, &public_of(client), "glm".to_string())
}

#[test]
fn messages_are_read_back() {
    let server = [5u8; 32];
    let client = [6u8; 32];
    let s = session(server, client);
    let shared = agreed(client, public_of(server));
    let key = derived(b"", &shared, b"message_3_user");
    let mut aad = public_of(client).to_vec();
    aad.extend_from_slice(b"glmuserzdr=true;");
    let text = b64(&sealed(&key, [1u8; 12], &aad, "Grüezi".as_bytes()));
    assert_eq!(s.decrypt_message(3, "user", &text, "zdr=true;").unwrap(), "Grüezi");

    let failed = "AES-GCM decryption failed";
    assert_eq!(s.decrypt_message(4, "user", &text, "zdr=true;").unwrap_err(), failed);
    assert_eq!(s.decrypt_message(3, "system", &text, "zdr=true;").unwrap_err(), failed);
    assert_eq!(s.decrypt_message(3, "user", &text, "zdr=false;").unwrap_err(), failed);
    assert_eq!(s.decrypt_message(3, "user", "%", "").unwrap_err(), "Invalid message base64");
    assert_eq!(
        s.decrypt_message(3, "user", &b64(&[0u8; 27]), "").unwrap_err(),
        "Invalid encrypted message length"
    );
    let bad = b64(&sealed(&key, [1u8; 12], &aad, &[0xff, 0xfe]));
    assert_eq!(
        s.decrypt_message(3, "user", &bad, "zdr=true;").unwrap_err(),
        "Invalid UTF-8 in decrypted message"
    );
}

#[test]
fn every_piece_has_its_own_key() {
    let server = [5u8; 32];
    let client = [6u8; 32];
    let shared = agreed(client, public_of(server));
    let mut ratchet = session(server, client).get_stream_ratchet();
    let mut aad = public_of(client).to_vec();
    aad.extend_from_slice(b"glmstream_response");
    let mut key = derived(b"", &shared, b"stream_init");
    for n in 1..=3u64 {
        let piece = ratchet.encrypt_chunk(format!("piece {}", n).as_bytes()).unwrap();
        assert_eq!(opened(&key, &aad, &unb64(&piece)), format!("piece {}", n).as_bytes());
        assert_eq!(ratchet.chunks(), n);
        key = derived(b"", &key, format!("stream_chunk_{}", n).as_bytes());
    }
    let mut again = StreamRatchet::new(&shared, &public_of(client), "glm");
    let first = derived(b"", &shared, b"stream_init");
    assert_eq!(
        unb64(&again.encrypt_chunk_with(b"x", &[8u8; 12])),
        sealed(&first, [8u8; 12], &aad, b"x")
    );
}

// Messages to enclaves, keyed by Ed25519

#[test]
fn enclave_messages_are_read_back() {
    let secret = [11u8; 32];
    let sealed = v2_encrypt("héllo".as_bytes(), &public_of(secret)).unwrap();
    assert_eq!(sealed.len(), 2 * (32 + 24 + 6 + 16));
    assert_eq!(v2_decrypt(&sealed, &secret).unwrap(), "héllo");
    assert_eq!(v2_decrypt(&sealed, &[12u8; 32]).unwrap_err(), "Decryption failed");
    assert_eq!(v2_decrypt("zz", &secret).unwrap_err(), "Invalid hex");
    assert_eq!(v2_decrypt("00ff", &secret).unwrap_err(), "Payload too short");

    let ephemeral = [13u8; 32];
    let shared = agreed(ephemeral, public_of(secret));
    let fixed = v2_encrypt_with(&[0xff], &public_of(ephemeral), &shared, &[1u8; 24]).unwrap();
    assert_eq!(v2_decrypt(&fixed, &secret).unwrap_err(), "Invalid UTF-8");
    let key = derived(b"", &shared, b"ed25519_encryption");
    let cipher = chacha20poly1305::XChaCha20Poly1305::new(&key.into());
    let inner = cipher.encrypt(&[1u8; 24].into(), &[0xffu8][..]).unwrap();
    let mut all = public_of(ephemeral).to_vec();
    all.extend_from_slice(&[1u8; 24]);
    all.extend_from_slice(&inner);
    assert_eq!(fixed, hex::encode(all));
}

#[test]
fn enclave_keys_follow_their_seed() {
    let seed = [7u8; 32];
    let s = deadrouter::nearai_e2ee::E2eeSession::from_seed(&seed);
    let pair = aws_lc_rs::signature::Ed25519KeyPair::from_seed_unchecked(&seed).unwrap();
    assert_eq!(s.client_pub_hex, hex::encode(pair.public_key().as_ref()));
    // The secret belongs to the Montgomery form of the shown key.
    let compressed = curve25519_dalek::edwards::CompressedEdwardsY::from_slice(pair.public_key().as_ref()).unwrap();
    assert_eq!(public_of(s.x25519_secret), compressed.decompress().unwrap().to_montgomery().to_bytes());
    let fresh = deadrouter::nearai_e2ee::E2eeSession::new().unwrap();
    assert_ne!(fresh.client_pub_hex, s.client_pub_hex);
    assert_eq!(fresh.client_pub_hex.len(), 64);
}

// Requests to instances

#[test]
fn boxes_give_back_what_they_hold() {
    let key = [4u8; 32];
    let sealed = chacha_encrypt_with(&key, &[2u8; 12], b"abc").unwrap();
    let cipher = chacha20poly1305::ChaCha20Poly1305::new(&key.into());
    assert_eq!(&sealed[12..], &cipher.encrypt(&[2u8; 12].into(), &b"abc"[..]).unwrap()[..]);
    assert_eq!(chacha_decrypt(&key, &sealed).unwrap(), b"abc");
    assert_eq!(chacha_decrypt(&[5u8; 32], &sealed).unwrap_err(), "ChaCha20 decryption/auth failed");
    assert_eq!(
        chacha_decrypt(&key, &[0u8; 27]).unwrap_err(),
        "Ciphertext too short for ChaCha20-Poly1305"
    );
}

#[test]
fn keys_are_salted_with_the_ciphertext() {
    let ciphertext: Vec<u8> = (0..40).collect();
    assert_eq!(
        derive_key(&[1, 2, 3], &ciphertext, "e2e-req-v1"),
        derived(&ciphertext[..16], &[1, 2, 3], b"e2e-req-v1")
    );
    assert_eq!(derive_key(&[1], &[9], "x"), derived(&[9], &[1], b"x"));
}

/// What the instance does with a request.
fn read_request(secret: &[u8], blob: &[u8]) -> Vec<u8> {
    let key = aws_lc_rs::kem::DecapsulationKey::new(&aws_lc_rs::kem::ML_KEM_768, secret).unwrap();
    let shared = key.decapsulate(aws_lc_rs::kem::Ciphertext::from(&blob[..1088])).unwrap();
    let inner = derive_key(shared.as_ref(), &blob[..1088], "e2e-req-v1");
    gunzipped(&chacha_decrypt(&inner, &blob[1088..]).unwrap())
}

fn gunzipped(data: &[u8]) -> Vec<u8> {
    let mut out = Vec::new();
    flate2::read::GzDecoder::new(data).read_to_end(&mut out).unwrap();
    out
}

fn gzipped(data: &[u8]) -> Vec<u8> {
    let mut out = Vec::new();
    flate2::read::GzEncoder::new(data, flate2::Compression::default()).read_to_end(&mut out).unwrap();
    out
}

#[test]
fn instances_read_their_requests() {
    let instance = response_keys().unwrap();
    let request = build_e2ee_request(&instance.public_b64, b"{\"a\":1}", vec![1, 2, 3]).unwrap();
    assert_eq!(request.response_sk, vec![1, 2, 3]);
    assert_eq!(read_request(&instance.secret, &request.blob), b"{\"a\":1}");

    assert_eq!(
        build_e2ee_request("*", b"", vec![]).err().unwrap(),
        "Invalid base64 in instance e2e_pubkey"
    );
    assert_eq!(
        build_e2ee_request(&b64(&[0u8; 10]), b"", vec![]).err().unwrap(),
        "Invalid ML-KEM-768 public key from instance"
    );
    let blob = seal_request(&[7u8; 1088], &[8u8; 32], &[9u8; 12], b"{}").unwrap();
    assert_eq!(&blob[..1088], &[7u8; 1088]);
    assert_eq!(&blob[1088..1100], &[9u8; 12]);
    let key = derive_key(&[8u8; 32], &[7u8; 1088], "e2e-req-v1");
    assert_eq!(gunzipped(&chacha_decrypt(&key, &blob[1088..]).unwrap()), b"{}");
}

#[test]
fn payloads_name_the_key_of_the_answer() {
    let payload = Json::Obj(vec![("model".to_string(), Json::Str("m".to_string()))]);
    match with_response_key(payload, "KEY") {
        Json::Obj(fields) => {
            assert_eq!(fields.len(), 2);
            assert_eq!(fields[1].0, "e2e_response_pk");
            assert!(matches!(&fields[1].1, Json::Str(s) if s == "KEY"));
        }
        _ => panic!("an object stays an object"),
    }
}

/// What an instance encapsulates to a response key.
fn encapsulated(public_b64: &str) -> (Vec<u8>, Vec<u8>) {
    let public = unb64(public_b64);
    let key = aws_lc_rs::kem::EncapsulationKey::new(&aws_lc_rs::kem::ML_KEM_768, &public).unwrap();
    let (ciphertext, shared) = key.encapsulate().unwrap();
    (ciphertext.as_ref().to_vec(), shared.as_ref().to_vec())
}

#[test]
fn answers_of_instances_are_read() {
    let keys = response_keys().unwrap();
    let (ciphertext, shared) = encapsulated(&keys.public_b64);
    let key = derive_key(&shared, &ciphertext, "e2e-resp-v1");
    let mut blob = ciphertext.clone();
    blob.extend_from_slice(&chacha_encrypt_with(&key, &[1u8; 12], &gzipped(b"{\"ok\":true}")).unwrap());
    assert_eq!(decrypt_response(&blob, &keys.secret).unwrap(), b"{\"ok\":true}");

    assert_eq!(
        decrypt_response(&[0u8; 5], &keys.secret).unwrap_err(),
        "Response blob too short: 5 bytes (minimum 1116)"
    );
    assert_eq!(
        decrypt_response(&blob, &[1, 2, 3]).unwrap_err(),
        "ML-KEM-768 decapsulation failed"
    );
    let mut plain = ciphertext.clone();
    plain.extend_from_slice(&chacha_encrypt_with(&key, &[1u8; 12], b"not zipped at all").unwrap());
    assert!(decrypt_response(&plain, &keys.secret).unwrap_err().starts_with("Gzip decompress: "));
    let last = blob.len() - 1;
    blob[last] ^= 1;
    assert_eq!(decrypt_response(&blob, &keys.secret).unwrap_err(), "ChaCha20 decryption/auth failed");
}

#[test]
fn streams_of_instances_are_read() {
    let keys = response_keys().unwrap();
    let (ciphertext, shared) = encapsulated(&keys.public_b64);
    let key = decrypt_stream_init(&keys.secret, &b64(&ciphertext)).unwrap().bytes;
    assert_eq!(key, derive_key(&shared, &ciphertext, "e2e-stream-v1"));
    let piece = b64(&chacha_encrypt_with(&key, &[3u8; 12], b"data: {}").unwrap());
    assert_eq!(decrypt_stream_chunk(&piece, &key).unwrap(), "data: {}");

    assert_eq!(
        decrypt_stream_init(&keys.secret, "?").err().unwrap(),
        "Invalid base64 in e2e_init ML-KEM ciphertext"
    );
    assert_eq!(
        decrypt_stream_init(&keys.secret, &b64(&[1u8; 5])).err().unwrap(),
        "ML-KEM-768 decapsulation failed for stream init"
    );
    assert_eq!(decrypt_stream_chunk("?", &key).unwrap_err(), "Invalid base64 in e2e stream chunk");
    let bad = b64(&chacha_encrypt_with(&key, &[3u8; 12], &[0xff]).unwrap());
    assert_eq!(
        decrypt_stream_chunk(&bad, &key).unwrap_err(),
        "Decrypted stream chunk is not valid UTF-8"
    );
}

#[test]
fn ticket_keys_need_both_draws() {
    let secrets = TicketSecrets::from_draws(Some([1u8; 32]), Some([2u8; 32])).unwrap();
    assert_eq!((secrets.current, secrets.previous), ([1u8; 32], [2u8; 32]));
    assert!(TicketSecrets::from_draws(Some([1u8; 32]), None).is_none());
    assert!(TicketSecrets::from_draws(None, Some([2u8; 32])).is_none());
}

#[test]
fn response_keys_say_why_there_are_none() {
    let keys = response_keys_from(Ok((vec![1, 2], vec![0, 0, 0]))).unwrap();
    assert_eq!((keys.secret, keys.public_b64), (vec![1, 2], "AAAA".to_string()));
    let said = |e: KemKeyError| response_keys_from(Err(e)).err().unwrap();
    assert_eq!(said(KemKeyError::Generate), "ML-KEM-768 response keypair generation failed");
    assert_eq!(said(KemKeyError::Encapsulation), "Failed to derive response encapsulation key");
    assert_eq!(said(KemKeyError::Export), "Failed to export response public key bytes");
}

#[test]
fn compressed_payloads_are_boxed_behind_the_encapsulated_key() {
    let (ciphertext, shared, nonce) = ([7u8; 1088], [8u8; 32], [9u8; 12]);
    let blob = seal_compressed(&ciphertext, &shared, &nonce, Ok(vec![1, 2, 3])).unwrap();
    assert_eq!(&blob[..1088], &ciphertext);
    let key = derive_key(&shared, &ciphertext, "e2e-req-v1");
    assert_eq!(chacha_decrypt(&key, &blob[1088..]).unwrap(), vec![1, 2, 3]);
    let refused = |e: GzipError| seal_compressed(&ciphertext, &shared, &nonce, Err(e)).unwrap_err();
    assert_eq!(refused(GzipError::Write("full".to_string())), "Gzip compress write: full");
    assert_eq!(refused(GzipError::Finish("full".to_string())), "Gzip compress finish: full");
}

#[test]
fn sealed_messages_have_their_length() {
    let sealed = v2_encrypt(b"hello", &public_of([3u8; 32])).unwrap();
    assert_eq!(sealed.len(), 2 * (32 + 24 + 5 + 16));
    let mut ratchet = StreamRatchet::new(&[1u8; 32], &[2u8; 32], "m");
    assert_eq!(unb64(&ratchet.encrypt_chunk(b"hello").unwrap()).len(), 5 + 28);
}

#[test]
fn keys_are_wiped_when_dropped() {
    // Arrays alone need nothing done when they are dropped.
    assert!(!std::mem::needs_drop::<[u8; 32]>());
    assert!(std::mem::needs_drop::<TicketSecrets>());
    assert!(std::mem::needs_drop::<ServerSecret>());
    assert!(std::mem::needs_drop::<deadrouter::chutes_e2ee::StreamKey>());
}

#[test]
fn requests_follow_from_what_was_drawn() {
    let made = || (vec![7u8; 1088], vec![8u8; 32]);
    let told = |made: Result<(Vec<u8>, Vec<u8>), KemError>, drawn: Option<[u8; 12]>| {
        request_from(made, drawn, b"{}", vec![]).err().unwrap()
    };
    assert_eq!(told(Err(KemError::BadKey), Some([9u8; 12])), "Invalid ML-KEM-768 public key from instance");
    assert_eq!(told(Err(KemError::Failed), Some([9u8; 12])), "ML-KEM-768 encapsulation failed");
    assert_eq!(told(Ok(made()), None), "ChaCha20 encryption failed");
    let built = request_from(Ok(made()), Some([9u8; 12]), b"{}", vec![4]).unwrap();
    assert_eq!(built.response_sk, vec![4]);
    // Compressing gives the same bytes each time.
    assert_eq!(built.blob, seal_request(&[7u8; 1088], &[8u8; 32], &[9u8; 12], b"{}").unwrap());
}

#[test]
fn sealed_messages_follow_from_what_was_drawn() {
    let told = |agreed: Result<([u8; 32], [u8; 32]), AgreementError>, drawn: Option<[u8; 24]>| {
        v2_encrypt_from(b"hi", agreed, drawn).unwrap_err()
    };
    let nonce = Some([2u8; 24]);
    assert_eq!(told(Err(AgreementError::Generate), nonce), "Failed to generate ephemeral key: Unspecified");
    assert_eq!(told(Err(AgreementError::PublicKey), nonce), "Failed to compute public key: Unspecified");
    assert_eq!(told(Err(AgreementError::Agree), nonce), "Failed DH agreement");
    let ephemeral = public_of([5u8; 32]);
    let shared = agreed([5u8; 32], public_of([6u8; 32]));
    assert_eq!(told(Ok((ephemeral, shared)), None), "Failed to generate nonce: Unspecified");
    let text = v2_encrypt_from(b"hi", Ok((ephemeral, shared)), nonce).unwrap();
    assert_eq!(text, v2_encrypt_with(b"hi", &ephemeral, &shared, &[2u8; 24]).unwrap());
    assert_eq!(v2_decrypt(&text, &[6u8; 32]).unwrap(), "hi");
}
