use base64ct::Encoding;
use rcgen::PublicKeyData;

use deadrouter::attestation::debuggable;
use deadrouter::attestation::gpu_payload;
use deadrouter::attestation::top_payload;
use deadrouter::attestation::verify_intel_tdx_quote;
use deadrouter::attestation::verify_nvidia_gpu_attestation;
use deadrouter::chutes::ChutesInstanceInfo;
use deadrouter::chutes_call::binding;
use deadrouter::chutes_call::evidence_list;
use deadrouter::chutes_call::evidence_url;
use deadrouter::chutes_call::find_evidence;
use deadrouter::chutes_call::instance_attested;
use deadrouter::chutes_call::quote_to_verify;
use deadrouter::chutes_call::verify_chutes_tee_evidence;
use deadrouter::chutes_call::Findings;
use deadrouter::json::Json;
use deadrouter::nearai::app_compose;
use deadrouter::nearai::near_ai_model_key;
use deadrouter::nearai::read_report;
use deadrouter::nearai::tcb_text;
use deadrouter::nearai_tls::adopt_key;
use deadrouter::nearai_tls::cached_key;
use deadrouter::nearai_tls::fingerprint_observed;
use deadrouter::nearai_tls::note_digest;
use deadrouter::nearai_tls::remember_key;
use deadrouter::nearai_tls::verify_server_cert;
use deadrouter::nearai_tls::CertVerdict;

fn from_value(v: &serde_json::Value) -> Json {
    match v {
        serde_json::Value::Null => Json::Null,
        serde_json::Value::Bool(b) => Json::Bool(*b),
        serde_json::Value::Number(n) => {
            if let Some(u) = n.as_u64() {
                Json::Unsigned(u)
            } else if let Some(i) = n.as_i64() {
                Json::Signed(i)
            } else {
                Json::Float(n.as_f64().unwrap().to_bits())
            }
        }
        serde_json::Value::String(s) => Json::Str(s.clone()),
        serde_json::Value::Array(a) => Json::Arr(a.iter().map(from_value).collect()),
        serde_json::Value::Object(o) => {
            Json::Obj(o.iter().map(|(k, v)| (k.clone(), from_value(v))).collect())
        }
    }
}

fn to_value(v: &Json) -> serde_json::Value {
    match v {
        Json::Null => serde_json::Value::Null,
        Json::Bool(b) => serde_json::Value::from(*b),
        Json::Unsigned(u) => serde_json::Value::from(*u),
        Json::Signed(i) => serde_json::Value::from(*i),
        Json::Float(bits) => serde_json::Value::from(f64::from_bits(*bits)),
        Json::Str(s) => serde_json::Value::from(s.clone()),
        Json::Arr(a) => serde_json::Value::from(a.iter().map(to_value).collect::<Vec<_>>()),
        Json::Obj(o) => serde_json::Value::Object(o.iter().map(|(k, v)| (k.clone(), to_value(v))).collect()),
    }
}

/// Reads a JSON text.
fn json(text: &str) -> Json {
    from_value(&serde_json::from_str(text).unwrap())
}

/// Whether a value says what a JSON text says.
fn says(v: &Json, text: &str) {
    let expected: serde_json::Value = serde_json::from_str(text).unwrap();
    assert_eq!(to_value(v), expected);
}

// Quotes

fn quote(report_data: &[u8]) -> Vec<u8> {
    let mut q = vec![0u8; 700];
    q[568..568 + report_data.len()].copy_from_slice(report_data);
    q
}

#[test]
fn quotes_bind_what_is_expected() {
    let q = quote(b"prefix");
    assert_eq!(verify_intel_tdx_quote(&q, b"prefix", Ok(())), Ok(()));
    assert_eq!(verify_intel_tdx_quote(&q, b"", Ok(())), Ok(()));
    assert_eq!(
        verify_intel_tdx_quote(&q[..631], b"", Ok(())).unwrap_err(),
        "FATAL: TDX Quote is too short to contain REPORTDATA"
    );
    assert_eq!(verify_intel_tdx_quote(&q, b"", Err("no".to_string())).unwrap_err(), "no");
    assert_eq!(
        verify_intel_tdx_quote(&q, b"other", Ok(())).unwrap_err(),
        "FATAL: Intel TDX Key/TLS/Nonce binding verification failed! Possible MITM attack."
    );
    assert_eq!(
        verify_intel_tdx_quote(&q, &[0u8; 65], Ok(())).unwrap_err(),
        "FATAL: expected_report_data_prefix is larger than REPORTDATA"
    );
    let mut debug = q;
    debug[168] = 3;
    assert!(debuggable(&debug));
    assert_eq!(
        verify_intel_tdx_quote(&debug, b"prefix", Ok(())).unwrap_err(),
        "FATAL: Intel TDX Enclave is running in DEBUG mode. Memory can be dumped!"
    );
}

// Tokens of NVIDIA's service

fn token(claims: &str) -> String {
    format!("e30.{}.sig", base64ct::Base64UrlUnpadded::encode_string(claims.as_bytes()))
}

fn nras(top: &str, gpu: &str) -> Json {
    json(&format!(r#"[["JWT","{}"],{{"GPU-0":"{}"}}]"#, top, gpu))
}

const GOOD_TOP: &str = r#"{"x-nvidia-overall-att-result":true}"#;

fn good_gpu() -> String {
    format!(r#"{{"dbgstat":"disabled","secboot":true,"eat_nonce":"{}"}}"#, "07".repeat(32))
}

fn verdict(top: &str, gpu: &str) -> Result<(), String> {
    let answer = nras(&token(top), &token(gpu));
    assert_eq!(top_payload(&answer).unwrap(), top.as_bytes());
    assert_eq!(gpu_payload(&answer).unwrap(), gpu.as_bytes());
    verify_nvidia_gpu_attestation(&answer, &Some(json(top)), &Some(json(gpu)), &[7u8; 32])
}

#[test]
fn gpus_are_judged_by_their_claims() {
    assert_eq!(verdict(GOOD_TOP, &good_gpu()), Ok(()));
    assert_eq!(
        verdict("{}", &good_gpu()).unwrap_err(),
        "FATAL: NVIDIA attestation verdict was not PASS"
    );
    assert_eq!(
        verdict(GOOD_TOP, &good_gpu().replace("disabled", "enabled")).unwrap_err(),
        "FATAL: NVIDIA GPU debug mode is enabled. Memory can be dumped!"
    );
    assert_eq!(
        verdict(GOOD_TOP, &good_gpu().replace("true", "false")).unwrap_err(),
        "FATAL: NVIDIA GPU Secure Boot is disabled."
    );
    assert_eq!(
        verdict(GOOD_TOP, &good_gpu().replace(&"07".repeat(32), "0708")).unwrap_err(),
        "FATAL: NVIDIA GPU payload nonce (0708) does not match request nonce"
    );
    let other = "08".repeat(32);
    assert_eq!(
        verdict(GOOD_TOP, &good_gpu().replace(&"07".repeat(32), &other)).unwrap_err(),
        format!("FATAL: NVIDIA GPU payload nonce ({}) does not match request nonce", other)
    );
}

#[test]
fn missing_tokens_are_told() {
    let none = None;
    let check = |v: &Json| verify_nvidia_gpu_attestation(v, &none, &none, &[7u8; 32]).unwrap_err();
    assert_eq!(check(&Json::Null), "Missing top-level JWT in NRAS response");
    assert_eq!(check(&nras("x", "y")), "Invalid Top JWT format");
    assert!(check(&nras("a.!.b", "y")).starts_with("Base64 decode failed for top JWT: "));
    assert_eq!(check(&nras(&token("{"), "y")), "Failed to parse Top JWT claims");
    let top = Some(json(GOOD_TOP));
    let check = |v: &Json| verify_nvidia_gpu_attestation(v, &top, &none, &[7u8; 32]).unwrap_err();
    assert_eq!(
        check(&json(&format!(r#"[["JWT","{}"]]"#, token(GOOD_TOP)))),
        "Missing GPU-0 JWT in NRAS response"
    );
    assert_eq!(check(&nras(&token(GOOD_TOP), "y")), "Invalid GPU JWT format");
    assert!(check(&nras(&token(GOOD_TOP), "a.!.b")).starts_with("Base64 decode failed for GPU JWT: "));
    assert_eq!(check(&nras(&token(GOOD_TOP), &token("{"))), "Failed to parse GPU JWT claims");
}

// Keys of models

fn sha256(data: &[u8]) -> Vec<u8> {
    aws_lc_rs::digest::digest(&aws_lc_rs::digest::SHA256, data).as_ref().to_vec()
}

/// A public key, the X25519 key that stands for it, and a quote that binds it.
fn attested_key() -> ([u8; 32], [u8; 32], Vec<u8>) {
    let s = deadrouter::nearai_e2ee::E2eeSession::from_seed(&[7u8; 32]);
    let mut key = [0u8; 32];
    key.copy_from_slice(&hex::decode(&s.client_pub_hex).unwrap());
    let montgomery =
        x25519_dalek::PublicKey::from(&x25519_dalek::StaticSecret::from(s.x25519_secret)).to_bytes();
    let mut bound = key.to_vec();
    bound.extend_from_slice(&[0xab, 0xcd]);
    let mut data = sha256(&bound);
    data.extend_from_slice(&[5u8; 32]);
    (key, montgomery, quote(&data))
}

fn report(key: &[u8; 32], quote: &[u8]) -> String {
    format!(
        r#"{{"signing_public_key":"0x{}","tls_cert_fingerprint":"abcd","intel_quote":"{}"}}"#,
        hex::encode(key),
        hex::encode(quote)
    )
}

fn key_from(report: &str, hardware: Result<(), String>) -> Result<([u8; 32], String), String> {
    near_ai_model_key(&json(report), &[5u8; 32], hardware, &None, Err("no GPU".to_string()))
}

#[test]
fn used_keys_are_attested() {
    let (key, montgomery, q) = attested_key();
    let (used, fingerprint) = key_from(&report(&key, &q), Ok(())).unwrap();
    assert_eq!(used, montgomery);
    assert_eq!(fingerprint, "abcd");

    assert_eq!(key_from(&report(&key, &q), Err("forged".to_string())).unwrap_err(), "forged");
    let binding_failed = "FATAL: Intel TDX Key/TLS/Nonce binding verification failed! Possible MITM attack.";
    let mut other = q.clone();
    other[568] ^= 1;
    assert_eq!(key_from(&report(&key, &other), Ok(())).unwrap_err(), binding_failed);
    let mut other = q.clone();
    other[600] ^= 1;
    assert_eq!(key_from(&report(&key, &other), Ok(())).unwrap_err(), binding_failed);
    let mut debug = q.clone();
    debug[168] = 1;
    assert_eq!(
        key_from(&report(&key, &debug), Ok(())).unwrap_err(),
        "FATAL: Intel TDX Enclave is running in DEBUG mode. Memory can be dumped!"
    );
    assert_eq!(
        key_from(&report(&key, &q[..600]), Ok(())).unwrap_err(),
        "FATAL: TDX Quote is too short to contain REPORTDATA"
    );
    let none = report(&key, &q).replace("intel_quote", "quote");
    assert_eq!(
        key_from(&none, Ok(())).unwrap_err(),
        "FATAL: No Intel TDX or NVIDIA payload found for hardware verification. Refusing to send unencrypted data."
    );
    let gpu = none.replace("\"quote\"", "\"nvidia_payload\"");
    assert_eq!(key_from(&gpu, Ok(())).unwrap_err(), "no GPU");
    assert_eq!(
        near_ai_model_key(&json(&gpu), &[5u8; 32], Ok(()), &None, Ok(())).unwrap().0,
        montgomery
    );
    assert_eq!(
        key_from(&report(&key, &q).replace("\"intel_quote\":\"", "\"intel_quote\":\"z"), Ok(())).unwrap_err(),
        "Invalid hex in TDX quote"
    );
}

#[test]
fn what_an_enclave_runs_is_bound() {
    let (key, _, mut q) = attested_key();
    let compose = "services: {}";
    q[232] = 1;
    q[233..265].copy_from_slice(&sha256(compose.as_bytes()));
    let with_compose = |c: &str| {
        let r = report(&key, &q);
        format!(r#"{},"info":{{"tcb_info":{{"app_compose":"{}"}}}}}}"#, &r[..r.len() - 1], c)
    };
    assert!(key_from(&with_compose(compose), Ok(())).is_ok());
    assert!(key_from(&report(&key, &q), Ok(())).is_ok());
    let e = key_from(&with_compose("evil: {}"), Ok(())).unwrap_err();
    assert_eq!(
        e,
        format!(
            "FATAL: Docker Compose hash mismatch! mr_config_id does not match SHA256(app_compose). Expected prefix: 01{}, Got: {}",
            hex::encode(sha256(b"evil: {}")),
            hex::encode(&q[232..280])
        )
    );
    let text = json(r#"{"info":{"tcb_info":"{\"app_compose\":\"x\"}"}}"#);
    assert_eq!(tcb_text(&text).unwrap(), r#"{"app_compose":"x"}"#);
    assert_eq!(app_compose(&text, &Some(json(r#"{"app_compose":"x"}"#))).unwrap(), "x");
    assert!(app_compose(&text, &None).is_none());
}

#[test]
fn incomplete_reports_are_told() {
    let said = |text: &str| read_report(&json(text)).err().unwrap();
    assert_eq!(said("{}"), "FATAL: Missing signing key in attestation response");
    assert_eq!(said(r#"{"signing_address":"0xzz"}"#), "Invalid hex in model key: 0xzz");
    let key = "11".repeat(32);
    assert_eq!(
        said(&format!(r#"{{"signing_address":"{}"}}"#, key)),
        "FATAL: Missing tls_cert_fingerprint in attestation response"
    );
    assert_eq!(
        said(&format!(r#"{{"signing_address":"{}","tls_cert_fingerprint":"q"}}"#, key)),
        "Invalid hex in tls_cert_fingerprint: q"
    );
    let nested = format!(
        r#"{{"model_attestations":[{{"signing_public_key":"{}","nvidia_quote":"n"}}],"tls_cert_fingerprint":"00"}}"#,
        key
    );
    let r = read_report(&json(&nested)).unwrap();
    assert_eq!(r.key, [0x11u8; 32]);
    assert_eq!(r.nvidia_payload.as_deref(), Some("n"));
    assert!(r.intel_quote.is_none());
}

// Certificates

#[test]
fn certificates_are_held_to_their_pins() {
    let pair = rcgen::KeyPair::generate().unwrap();
    let cert = rcgen::CertificateParams::new(vec!["localhost".to_string()]).unwrap().self_signed(&pair).unwrap();
    let digest = match verify_server_cert(cert.der(), &None) {
        CertVerdict::Unpinned(d) => d,
        _ => panic!("nothing is pinned"),
    };
    assert_eq!(digest, hex::encode(sha256(&pair.subject_public_key_info())));
    let pins = Some(vec!["zz".to_string(), digest.clone()]);
    assert!(matches!(verify_server_cert(cert.der(), &pins), CertVerdict::Pinned));
    let pins = Some(vec!["00".repeat(32)]);
    assert!(matches!(verify_server_cert(cert.der(), &pins), CertVerdict::Mismatch(d) if d == digest));
    assert!(matches!(verify_server_cert(&[1, 2, 3], &None), CertVerdict::Unreadable));

    let mut seen = Vec::new();
    note_digest(&mut seen, "a.example", &digest);
    note_digest(&mut seen, "a.example", &digest);
    assert_eq!(seen.len(), 1);
    assert_eq!(seen[0].1, vec![digest.clone()]);
    assert!(fingerprint_observed(&seen, "a.example", &digest));
    assert!(!fingerprint_observed(&seen, "a.example", "other"));
    assert!(fingerprint_observed(&seen, "b.example", "other"));
}

#[test]
fn attested_certificates_are_pinned() {
    let mut seen = Vec::new();
    note_digest(&mut seen, "a.example", "11");
    let mut pins = Vec::new();
    let mut keys = Vec::new();
    assert!(!adopt_key(&seen, &mut pins, &mut keys, "a.example", "22", "glm", [4u8; 32], 5));
    assert!(pins.is_empty());
    assert_eq!(cached_key(&keys, "glm", 5), None);
    assert!(adopt_key(&seen, &mut pins, &mut keys, "a.example", "11", "glm", [4u8; 32], 5));
    assert_eq!(pins, vec![("a.example".to_string(), vec!["11".to_string()])]);
    assert_eq!(cached_key(&keys, "glm", 5), Some([4u8; 32]));
}

#[test]
fn keys_are_used_for_an_hour() {
    let mut keys = Vec::new();
    remember_key(&mut keys, "glm", [4u8; 32], 1000);
    assert_eq!(cached_key(&keys, "glm", 1000), Some([4u8; 32]));
    assert_eq!(cached_key(&keys, "glm", 4599), Some([4u8; 32]));
    assert_eq!(cached_key(&keys, "glm", 4600), None);
    assert_eq!(cached_key(&keys, "kimi", 1000), None);
}

// Instances

fn evidence_for(quote: &[u8]) -> String {
    format!(
        r#"{{"evidence":[{{"instance_id":"other"}},{{"instance_id":"i1","quote":"{}","gpu_evidence":[1]}}]}}"#,
        base64ct::Base64::encode_string(quote)
    )
}

#[test]
fn instances_are_attested() {
    let nonce = [0xaau8; 32];
    let hash = binding(&nonce, "PUB");
    assert_eq!(&hash[..], &sha256(format!("{}PUB", "aa".repeat(32)).as_bytes())[..]);
    assert_eq!(
        evidence_url("https://c", "x1", &nonce),
        format!("https://c/chutes/x1/evidence?nonce={}", "aa".repeat(32))
    );
    let q = quote(&hash);
    let answer = json(&evidence_for(&q));
    let list = evidence_list(&answer).unwrap();
    assert_eq!(quote_to_verify(find_evidence(list, "i1").unwrap()).unwrap(), q);
    assert!(quote_to_verify(find_evidence(list, "other").unwrap()).is_none());
    assert!(find_evidence(list, "i2").is_none());
    let request = deadrouter::chutes_call::gpu_request(find_evidence(list, "i1").unwrap(), &hash).unwrap();
    says(
        &request,
        &format!(r#"{{"nonce":"{}","arch":"HOPPER","evidence_list":[1]}}"#, hex::encode(hash)),
    );

    let gpu = good_gpu().replace(&"07".repeat(32), &hex::encode(hash));
    let found = |hardware: bool| Findings {
        hardware,
        nras: Some(nras(&token(GOOD_TOP), &token(&gpu))),
        top: Some(json(GOOD_TOP)),
        gpu: Some(json(&gpu)),
    };
    assert!(instance_attested(list, "i1", "PUB", &nonce, &found(true)));
    assert!(!instance_attested(list, "i1", "PUB", &nonce, &found(false)));
    assert!(!instance_attested(list, "i1", "OTHER", &nonce, &found(true)));
    assert!(!instance_attested(list, "i2", "PUB", &nonce, &found(true)));
    let mut silent = found(true);
    silent.nras = None;
    assert!(!instance_attested(list, "i1", "PUB", &nonce, &silent));
}

fn instance(id: &str) -> ChutesInstanceInfo {
    ChutesInstanceInfo { instance_id: id.to_string(), e2e_pubkey: "PUB".to_string(), nonces: vec![] }
}

#[test]
fn only_attested_instances_are_named() {
    let nonce = [0xaau8; 32];
    let hash = binding(&nonce, "PUB");
    let quoted = base64ct::Base64::encode_string(&quote(&hash));
    let evidence = |id: &str| format!(r#"{{"instance_id":"{}","quote":"{}","gpu_evidence":[1]}}"#, id, quoted);
    let answer = json(&format!(r#"{{"evidence":[{},{}]}}"#, evidence("a"), evidence("b")));
    let list = evidence_list(&answer).unwrap();
    let gpu = good_gpu().replace(&"07".repeat(32), &hex::encode(hash));
    let found = |hardware: bool| Findings {
        hardware,
        nras: Some(nras(&token(GOOD_TOP), &token(&gpu))),
        top: Some(json(GOOD_TOP)),
        gpu: Some(json(&gpu)),
    };
    let both = vec![instance("a"), instance("b")];
    assert_eq!(
        verify_chutes_tee_evidence(list, &both, &nonce, &vec![found(true), found(true)]).unwrap(),
        vec!["a", "b"]
    );
    assert_eq!(
        verify_chutes_tee_evidence(list, &both, &nonce, &vec![found(true), found(false)]).unwrap_err(),
        "FATAL: Instance b has no valid TEE attestation."
    );
    assert_eq!(
        verify_chutes_tee_evidence(list, &both, &nonce, &vec![found(false), found(false)]).unwrap_err(),
        "FATAL: No instances were successfully verified. Aborting."
    );
    assert_eq!(
        verify_chutes_tee_evidence(list, &vec![], &nonce, &vec![]).unwrap_err(),
        "FATAL: No instances to verify"
    );
}
