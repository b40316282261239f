use deadrouter::dns::build_a_record_query;
use deadrouter::dns::build_request;
use deadrouter::dns::build_txt_record_query;
use deadrouter::dns::hardcoded_resolvers;
use deadrouter::dns::needs_tcp;
use deadrouter::dns::on_cert_answer;
use deadrouter::dns::on_udp_outcome;
use deadrouter::dns::open_session;
use deadrouter::dns::pad_query;
use deadrouter::dns::parse_dns_response;
use deadrouter::dns::parse_txt_response;
use deadrouter::dns::read_response;
use deadrouter::dns::select_cert;
use deadrouter::dns::session_failure;
use deadrouter::dns::session_from;
use deadrouter::dns::session_of;
use deadrouter::dns::session_usable;
use deadrouter::dns::show_address;
use deadrouter::dns::start_request;
use deadrouter::dns::unpad_response;
use deadrouter::dns::verify_cert;
use deadrouter::dns::xchacha20_djb_poly1305_decrypt;
use deadrouter::dns::xchacha20_djb_poly1305_encrypt;
use deadrouter::dns::DnscryptClientState;
use deadrouter::dns::HardcodedResolver;
use deadrouter::dns::SessionStep;
use deadrouter::dns::UdpOutcome;
use deadrouter::dns::UdpStep;
use deadrouter::primitives::AgreementError;

use aws_lc_rs::signature::KeyPair;
use chacha20::cipher::KeyIvInit;
use chacha20::cipher::StreamCipher;
use poly1305::universal_hash::KeyInit;

#[test]
fn test_build_a_record_query() {
    let query = build_a_record_query("github.com");
    assert_eq!(
        &query[0..12],
        &[0xab, 0xcd, 0x01, 0x00, 0x00, 0x01, 0x00, 0x00, 0x00, 0x00, 0x00, 0x00]
    );
    assert_eq!(query[12], 6);
    assert_eq!(&query[13..19], b"github");
    assert_eq!(query[19], 3);
    assert_eq!(&query[20..23], b"com");
    assert_eq!(query[23], 0);
    assert_eq!(&query[24..28], &[0x00, 0x01, 0x00, 0x01]);
}

fn github_question() -> Vec<u8> {
    let mut response = Vec::new();
    response.extend_from_slice(&[
        0xab, 0xcd, 0x81, 0x80, 0x00, 0x01, 0x00, 0x01, 0x00, 0x00, 0x00, 0x00,
    ]);
    response.extend_from_slice(&[6]);
    response.extend_from_slice(b"github");
    response.extend_from_slice(&[3]);
    response.extend_from_slice(b"com");
    response.extend_from_slice(&[0]);
    response.extend_from_slice(&[0x00, 0x01, 0x00, 0x01]);
    response.extend_from_slice(&[0xc0, 0xc]);
    response
}

fn github_response() -> Vec<u8> {
    let mut response = github_question();
    response.extend_from_slice(&[0x00, 0x01, 0x00, 0x01]);
    response.extend_from_slice(&[0x00, 0x00, 0x00, 0x3c]);
    response.extend_from_slice(&[0x00, 0x04]);
    response.extend_from_slice(&[140, 82, 121, 4]);
    response
}

#[test]
fn test_parse_dns_response_valid() {
    let response = github_response();
    let parsed = parse_dns_response(&response).expect("Should parse valid DNS response");
    assert_eq!(parsed, [140, 82, 121, 4]);
}

#[test]
fn test_parse_dns_response_truncated() {
    assert!(parse_dns_response(&[]).is_none());
    assert!(parse_dns_response(&[0; 10]).is_none());

    let response = github_question();
    assert!(parse_dns_response(&response).is_none());
}

#[test]
fn test_pad_query() {
    let query = vec![1, 2, 3];
    let padded = pad_query(&query, 64);
    assert_eq!(padded.len(), 64);
    assert_eq!(padded[0..3], [1, 2, 3]);
    assert_eq!(padded[3], 0x80);
    assert!(padded[4..].iter().all(|&b| b == 0));

    let query2 = vec![5; 64];
    let padded2 = pad_query(&query2, 64);
    assert_eq!(padded2.len(), 128);
    assert_eq!(padded2[64], 0x80);
}

#[test]
fn test_unpad_response() {
    let valid = vec![1, 2, 3, 0x80, 0, 0, 0];
    let unpadded = unpad_response(&valid).unwrap();
    assert_eq!(unpadded, vec![1, 2, 3]);

    let invalid_no_80 = vec![1, 2, 3, 0, 0, 0];
    assert!(unpad_response(&invalid_no_80).is_err());
}

#[test]
fn test_xchacha20_djb_poly1305_encrypt_decrypt() {
    let key = [9u8; 32];
    let nonce = [12u8; 24];
    let msg = b"Hello, DNSCrypt!";

    let encrypted = xchacha20_djb_poly1305_encrypt(&key, &nonce, msg);
    assert_eq!(encrypted.len(), msg.len() + 16);

    let decrypted = xchacha20_djb_poly1305_decrypt(&key, &nonce, &encrypted).unwrap();
    assert_eq!(decrypted, msg);
}

#[test]
fn padding_is_undone() {
    for len in [0usize, 1, 62, 63, 64, 65, 200] {
        let message: Vec<u8> = (0..len).map(|i| (i * 7) as u8).collect();
        let padded = pad_query(&message, 128);
        assert_eq!(padded.len() % 64, 0);
        assert!(padded.len() >= 128);
        assert_eq!(unpad_response(&padded).unwrap(), message);
    }
    assert_eq!(unpad_response(&[0, 0, 0]).unwrap_err(), "Invalid ISO/IEC 7816-4 padding");
    assert_eq!(unpad_response(&[]).unwrap_err(), "Invalid ISO/IEC 7816-4 padding");
}

#[test]
fn sealing_is_xchacha20_with_poly1305() {
    let key = [3u8; 32];
    let nonce = [4u8; 24];
    let plain = [1u8, 2, 3, 4, 5];
    let mut stream = vec![0u8; 37];
    chacha20::XChaCha20::new(&key.into(), &nonce.into()).apply_keystream(&mut stream);
    let cipher: Vec<u8> = plain.iter().zip(&stream[32..]).map(|(a, b)| a ^ b).collect();
    let mut one_time = [0u8; 32];
    one_time.copy_from_slice(&stream[..32]);
    let tag = poly1305::Poly1305::new(&one_time.into()).compute_unpadded(&cipher);

    let sealed = xchacha20_djb_poly1305_encrypt(&key, &nonce, &plain);
    assert_eq!(&sealed[..16], &tag[..]);
    assert_eq!(&sealed[16..], &cipher[..]);
}

#[test]
fn sealing_detects_changes() {
    let key = [9u8; 32];
    let nonce = [12u8; 24];
    let mut sealed = xchacha20_djb_poly1305_encrypt(&key, &nonce, b"abc");
    sealed[17] ^= 1;
    assert_eq!(
        xchacha20_djb_poly1305_decrypt(&key, &nonce, &sealed).unwrap_err(),
        "Poly1305 authentication failed"
    );
    assert_eq!(
        xchacha20_djb_poly1305_decrypt(&key, &nonce, &sealed[..15]).unwrap_err(),
        "Ciphertext too short"
    );
}

#[test]
fn text_queries_ask_for_text() {
    let query = build_txt_record_query("a.bc");
    assert_eq!(&query[12..], &[1, b'a', 2, b'b', b'c', 0, 0x00, 0x10, 0x00, 0x01]);
}

#[test]
fn text_records_are_read() {
    let mut response = vec![0xab, 0xcd, 0x81, 0x80, 0, 1, 0, 2, 0, 0, 0, 0];
    response.extend_from_slice(&[1, b'a', 0, 0, 0x10, 0, 1]);
    // Two strings of one record come as one text.
    response.extend_from_slice(&[0xc0, 0x0c, 0, 0x10, 0, 1, 0, 0, 0, 1, 0, 6]);
    response.extend_from_slice(&[2, 7, 8, 2, 9, 10]);
    // A record of another type says nothing.
    response.extend_from_slice(&[0xc0, 0x0c, 0, 1, 0, 1, 0, 0, 0, 1, 0, 4, 1, 2, 3, 4]);
    assert_eq!(parse_txt_response(&response), vec![vec![7, 8, 9, 10]]);
    assert!(parse_txt_response(&[1, 2, 3]).is_empty());
}

#[test]
fn truncated_answers_are_asked_for_again() {
    assert!(needs_tcp(&[0xab, 0xcd, 0x02]));
    assert!(!needs_tcp(&[0xab, 0xcd, 0x01]));
    assert!(!needs_tcp(&[0xab, 0xcd]));
    assert!(!needs_tcp(&[0x72, 0x36, 0x66, 0x6e, 0x76, 0x57, 0x6a, 0x38]));
}

/// A certificate that a key pair signs.
fn certificate(seed: &[u8; 32], resolver_pk: &[u8; 32], serial: u32, start: u32, end: u32) -> Vec<u8> {
    let pair = aws_lc_rs::signature::Ed25519KeyPair::from_seed_unchecked(seed).unwrap();
    let mut signed = Vec::new();
    signed.extend_from_slice(resolver_pk);
    signed.extend_from_slice(b"magic123");
    signed.extend_from_slice(&serial.to_be_bytes());
    signed.extend_from_slice(&start.to_be_bytes());
    signed.extend_from_slice(&end.to_be_bytes());
    let mut cert = b"DNSC".to_vec();
    cert.extend_from_slice(&[0, 2, 0, 0]);
    cert.extend_from_slice(pair.sign(&signed).as_ref());
    cert.extend_from_slice(&signed);
    cert
}

fn signer(seed: &[u8; 32]) -> [u8; 32] {
    let pair = aws_lc_rs::signature::Ed25519KeyPair::from_seed_unchecked(seed).unwrap();
    let mut public = [0u8; 32];
    public.copy_from_slice(pair.public_key().as_ref());
    public
}

const NOW: u64 = 1_750_000_000;

#[test]
fn certificates_are_checked() {
    let seed = [1u8; 32];
    let pk = signer(&seed);
    let cert = certificate(&seed, &[5u8; 32], 9, 1_749_000_000, 1_751_000_000);
    let read = verify_cert(&cert, &pk, NOW).unwrap();
    assert_eq!(read.resolver_pk, [5u8; 32]);
    assert_eq!(&read.client_magic, b"magic123");
    assert_eq!(read.serial, 9);
    assert_eq!(read.ts_start, 1_749_000_000);
    assert_eq!(read.ts_end, 1_751_000_000);

    assert!(verify_cert(&cert[..123], &pk, NOW).is_none());
    assert!(verify_cert(&cert, &signer(&[2u8; 32]), NOW).is_none());
    assert!(verify_cert(&cert, &pk, 1_748_999_999).is_none());
    assert!(verify_cert(&cert, &pk, 1_751_000_000).is_some());
    assert!(verify_cert(&cert, &pk, 1_751_000_001).is_none());
    // A clock that is plainly wrong holds nothing against a certificate.
    assert!(verify_cert(&cert, &pk, 1_700_000_000).is_some());
    let mut other = cert.clone();
    other[5] = 1;
    assert!(verify_cert(&other, &pk, NOW).is_none());
    let mut changed = cert;
    changed[80] ^= 1;
    assert!(verify_cert(&changed, &pk, NOW).is_none());
}

#[test]
fn the_newest_certificate_is_taken() {
    let seed = [1u8; 32];
    let pk = signer(&seed);
    let certs = vec![
        certificate(&seed, &[5u8; 32], 3, 0, u32::MAX),
        certificate(&seed, &[6u8; 32], 8, 0, u32::MAX),
        certificate(&[9u8; 32], &[7u8; 32], 99, 0, u32::MAX),
        certificate(&seed, &[8u8; 32], 8, 0, u32::MAX),
    ];
    let best = select_cert(&certs, &pk, NOW).unwrap();
    assert_eq!(best.serial, 8);
    assert_eq!(best.resolver_pk, [6u8; 32]);
    assert!(select_cert(&Vec::new(), &pk, NOW).is_none());
}

fn resolver(pk: [u8; 32]) -> HardcodedResolver {
    HardcodedResolver { ip: [9, 9, 9, 9], port: 8443, provider_name: "p".to_string(), provider_pk: pk }
}

#[test]
fn resolvers_are_tried_in_turn() {
    let known = hardcoded_resolvers();
    assert_eq!(known.len(), 3);
    assert_eq!(known[1].ip, [149, 112, 112, 112]);
    assert_eq!(known[2].provider_name, "2.dnscrypt-cert.quad9.net");
    assert_eq!(show_address(&known[0].ip, known[0].port), "9.9.9.9:8443");

    match on_cert_answer(&known[0], &Err("UDP query timed out".to_string()), NOW) {
        SessionStep::TryNext(e) => {
            assert_eq!(e, "Failed to query cert from 9.9.9.9:8443: UDP query timed out")
        }
        _ => panic!("the next resolver is to be tried"),
    }
    match on_cert_answer(&known[0], &Ok(vec![0; 40]), NOW) {
        SessionStep::TryNext(e) => {
            assert_eq!(e, "No valid certs found for resolver 9.9.9.9:8443")
        }
        _ => panic!("the next resolver is to be tried"),
    }
    assert_eq!(
        session_failure(&vec!["a".to_string(), "b".to_string()]),
        "Failed to establish DNSCrypt session: a; b"
    );
}

#[test]
fn a_valid_certificate_opens_a_session() {
    let seed = [1u8; 32];
    let server = x25519_dalek::StaticSecret::from([42u8; 32]);
    let server_pk = x25519_dalek::PublicKey::from(&server).to_bytes();
    let cert_bytes = certificate(&seed, &server_pk, 1, 0, u32::MAX);
    let r = resolver(signer(&seed));

    let mut answer = vec![0xab, 0xcd, 0x81, 0x80, 0, 1, 0, 1, 0, 0, 0, 0];
    answer.extend_from_slice(&[1, b'a', 0, 0, 0x10, 0, 1]);
    answer.extend_from_slice(&[0xc0, 0x0c, 0, 0x10, 0, 1, 0, 0, 0, 1, 0]);
    answer.push((cert_bytes.len() + 1) as u8);
    answer.push(cert_bytes.len() as u8);
    answer.extend_from_slice(&cert_bytes);
    let session = match on_cert_answer(&r, &Ok(answer), NOW) {
        SessionStep::Established(s) => s,
        _ => panic!("the session is to stand"),
    };
    // The resolver comes to the same key.
    let client = x25519_dalek::PublicKey::from(session.client_pk_bytes);
    let agreed = server.diffie_hellman(&client).to_bytes();
    let key = chacha20::hchacha::<chacha20::R20>(&agreed.into(), &[0u8; 16].into());
    assert_eq!(&session.shared_key[..], &key[..]);
    assert_eq!(session.resolver_ip, [9, 9, 9, 9]);
    assert_eq!(&session.client_magic, b"magic123");

    let cert = verify_cert(&cert_bytes, &r.provider_pk, NOW).unwrap();
    let fixed = session_from(&r, &cert, session.client_pk_bytes, &agreed);
    assert_eq!(fixed.shared_key, session.shared_key);
    let made = session_of(&r, &cert, Ok((session.client_pk_bytes, agreed))).unwrap();
    assert_eq!(made.shared_key, session.shared_key);
    assert_eq!(made.client_pk_bytes, session.client_pk_bytes);
    let told = |e: AgreementError| session_of(&r, &cert, Err(e)).err().unwrap();
    assert_eq!(told(AgreementError::Generate), "Failed to generate client private key: Unspecified");
    assert_eq!(told(AgreementError::PublicKey), "Failed to compute client public key: Unspecified");
    assert_eq!(told(AgreementError::Agree), "X25519 agreement failed: Unspecified");
    let other = open_session(&r, &cert).unwrap();
    assert_ne!(other.client_pk_bytes, session.client_pk_bytes);
    assert!(session_usable(&session, 5));
    assert!(!session_usable(&session, u32::MAX as u64));
}

fn session() -> DnscryptClientState {
    DnscryptClientState {
        resolver_ip: [9, 9, 9, 9],
        resolver_port: 8443,
        client_pk_bytes: [2u8; 32],
        client_magic: [3u8; 8],
        shared_key: [4u8; 32],
        ts_end: 10,
    }
}

#[test]
fn requests_are_sealed_queries() {
    let nonce = [5u8; 12];
    let packet = build_request(&session(), &nonce, "github.com");
    assert_eq!(&packet[..8], &[3u8; 8]);
    assert_eq!(&packet[8..40], &[2u8; 32]);
    assert_eq!(&packet[40..52], &nonce);
    let mut full = [0u8; 24];
    full[..12].copy_from_slice(&nonce);
    let plain = xchacha20_djb_poly1305_decrypt(&[4u8; 32], &full, &packet[52..]).unwrap();
    assert_eq!(plain.len(), 1024);
    assert_eq!(unpad_response(&plain).unwrap(), build_a_record_query("github.com"));

    let (drawn, again) = start_request(&session(), "github.com").unwrap();
    assert_eq!(&again[40..52], &drawn);
    assert_eq!(again.len(), packet.len());
}

fn reply(message: &[u8], nonce: &[u8; 24]) -> Vec<u8> {
    let sealed = xchacha20_djb_poly1305_encrypt(&[4u8; 32], nonce, message);
    let mut packet = vec![0x72, 0x36, 0x66, 0x6e, 0x76, 0x57, 0x6a, 0x38];
    packet.extend_from_slice(nonce);
    packet.extend_from_slice(&sealed);
    packet
}

#[test]
fn responses_are_read_back() {
    let client = [5u8; 12];
    let mut nonce = [6u8; 24];
    nonce[..12].copy_from_slice(&client);
    let packet = reply(&pad_query(&github_response(), 256), &nonce);
    assert_eq!(read_response(&session(), &client, &packet).unwrap(), [140, 82, 121, 4]);

    let said = |p: &[u8]| read_response(&session(), &client, p).unwrap_err();
    assert_eq!(said(&packet[..31]), "Response packet too short");
    let mut wrong = packet.clone();
    wrong[0] = 0;
    assert_eq!(said(&wrong), "Invalid resolver magic");
    let mut wrong = packet.clone();
    wrong[8] ^= 1;
    assert_eq!(said(&wrong), "Client nonce mismatch in resolver response");
    let mut wrong = packet.clone();
    wrong[60] ^= 1;
    assert_eq!(said(&wrong), "Poly1305 authentication failed");
    assert_eq!(said(&packet[..40]), "Ciphertext too short");
    assert_eq!(said(&reply(&[1, 2, 3], &nonce)), "Invalid ISO/IEC 7816-4 padding");
    assert_eq!(
        said(&reply(&pad_query(&github_question(), 64), &nonce)),
        "No A record found in DNSCrypt response"
    );
}

#[test]
fn queries_are_sent_twice() {
    assert!(matches!(on_udp_outcome(1, UdpOutcome::Answer(vec![4, 5])), UdpStep::Done(v) if v == [4, 5]));
    assert!(matches!(on_udp_outcome(2, UdpOutcome::Answer(vec![4, 5])), UdpStep::Done(v) if v == [4, 5]));
    assert!(matches!(on_udp_outcome(1, UdpOutcome::NotSent("no route".to_string())), UdpStep::Wait(200)));
    assert!(matches!(on_udp_outcome(1, UdpOutcome::NotReceived("closed".to_string())), UdpStep::Wait(200)));
    assert!(matches!(on_udp_outcome(1, UdpOutcome::TimedOut), UdpStep::Wait(200)));
    let told = |outcome: UdpOutcome| match on_udp_outcome(2, outcome) {
        UdpStep::Fail(e) => e,
        _ => panic!("the query is to be given up"),
    };
    assert_eq!(told(UdpOutcome::NotSent("no route".to_string())), "UDP send failed: no route");
    assert_eq!(told(UdpOutcome::NotReceived("closed".to_string())), "UDP recv failed: closed");
    assert_eq!(told(UdpOutcome::TimedOut), "UDP query timed out");
}
