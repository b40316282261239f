use aws_lc_rs::aead;
use aws_lc_rs::hkdf;
use base64ct::Encoding;

use deadrouter::admission::check_bearer;
use deadrouter::admission::json_error;
use deadrouter::admission::open_request;
use deadrouter::admission::passthrough_key;
use deadrouter::chat::toggles_aad;
use deadrouter::chat::ChatCompletionRequest;
use deadrouter::chat::Message;
use deadrouter::chat::StreamOptions;
use deadrouter::connections::https_target;
use deadrouter::connections::onion_nickname;
use deadrouter::connections::onion_port;
use deadrouter::connections::onion_protocol;
use deadrouter::connections::plain_onion;
use deadrouter::connections::ports;
use deadrouter::connections::with_transport_security;
use deadrouter::connections::PlainOnion;
use deadrouter::crypto_e2ee::ticket_for;
use deadrouter::crypto_e2ee::TicketSecrets;
use deadrouter::cuckoofilter::CuckooFilter;
use deadrouter::dos::Address;
use deadrouter::dos::DosProtection;
use deadrouter::http::compute_sha512_b64;
use deadrouter::http::format_upstream_error;
use deadrouter::http::get_security_headers;
use deadrouter::http::get_style_hash;
use deadrouter::http::headers_to_map;
use deadrouter::i18n::Locale;
use deadrouter::json::Json;
use deadrouter::keys::near_key_url;
use deadrouter::keys::plain_error;
use deadrouter::router::font_mime;
use deadrouter::router::get_404_style_hash;
use deadrouter::router::route;
use deadrouter::router::static_mime;
use deadrouter::router::Method;
use deadrouter::router::Route;
use deadrouter::selection::answer_headers_for;
use deadrouter::selection::arrange;
use deadrouter::selection::arrangement;
use deadrouter::selection::choose_providers;
use deadrouter::selection::dialect;
use deadrouter::selection::route_request;
use deadrouter::selection::Arrangement;
use deadrouter::selection::Demands;
use deadrouter::selection::Dialect;
use deadrouter::state::DynamicModelInfo;
use deadrouter::state::ProviderConfig;
use deadrouter::time::parse_http_date;
use deadrouter::tinfoil_relay::check_ready;
use deadrouter::tinfoil_relay::forwarded_headers;
use deadrouter::tinfoil_relay::is_stream;
use deadrouter::tinfoil_relay::relay_refusal;
use deadrouter::health::ProviderHealthState;

fn from_value(v: &serde_json::Value) -> Json {
    match v {
        serde_json::Value::Null => Json::Null,
        serde_json::Value::Bool(b) => Json::Bool(*b),
        serde_json::Value::Number(n) => {
            if let Some(u) = n.as_u64() {
                Json::Unsigned(u)
            } else if let Some(i) = n.as_i64() {
                Json::Signed(i)
            } else {
                Json::Float(n.as_f64().unwrap().to_bits())
            }
        }
        serde_json::Value::String(s) => Json::Str(s.clone()),
        serde_json::Value::Array(a) => Json::Arr(a.iter().map(from_value).collect()),
        serde_json::Value::Object(o) => {
            Json::Obj(o.iter().map(|(k, v)| (k.clone(), from_value(v))).collect())
        }
    }
}

fn to_value(v: &Json) -> serde_json::Value {
    match v {
        Json::Null => serde_json::Value::Null,
        Json::Bool(b) => serde_json::Value::from(*b),
        Json::Unsigned(u) => serde_json::Value::from(*u),
        Json::Signed(i) => serde_json::Value::from(*i),
        Json::Float(bits) => serde_json::Value::from(f64::from_bits(*bits)),
        Json::Str(s) => serde_json::Value::from(s.clone()),
        Json::Arr(a) => serde_json::Value::from(a.iter().map(to_value).collect::<Vec<_>>()),
        Json::Obj(o) => serde_json::Value::Object(o.iter().map(|(k, v)| (k.clone(), to_value(v))).collect()),
    }
}

/// Reads a JSON text.
fn json(text: &str) -> Json {
    from_value(&serde_json::from_str(text).unwrap())
}

/// Whether a value says what a JSON text says.
fn says(v: &Json, text: &str) {
    let expected: serde_json::Value = serde_json::from_str(text).unwrap();
    assert_eq!(to_value(v), expected);
}

fn headers(pairs: &[(&str, &str)]) -> Vec<(String, String)> {
    pairs.iter().map(|(k, v)| (k.to_string(), v.to_string())).collect()
}

fn request(model: &str, contents: &[&str]) -> ChatCompletionRequest {
    ChatCompletionRequest {
        model: model.to_string(),
        messages: contents
            .iter()
            .map(|c| Message { role: "user".to_string(), content: c.to_string() })
            .collect(),
        temperature: None,
        top_p: None,
        max_tokens: None,
        stop: None,
        frequency_penalty: None,
        presence_penalty: None,
        stream: true,
        stream_options: None,
        tools: None,
        tool_choice: None,
        response_format: None,
        seed: None,
        store: Some(true),
        cache_prompt: None,
        provider: None,
        preference: None,
        zdr: None,
        zds: None,
        tee: None,
    }
}

// Admission

#[test]
fn requests_need_a_bearer() {
    assert!(check_bearer(&headers(&[("authorization", "Bearer x")])).is_ok());
    for bad in [headers(&[]), headers(&[("authorization", "Basic x")])] {
        let e = check_bearer(&bad).err().unwrap();
        assert_eq!((e.status, e.message.as_str()), (401, "Missing or invalid Authorization header"));
    }
    says(
        &json_error("no"),
        r#"{"error":{"message":"no","type":"invalid_request_error","param":null,"code":null}}"#,
    );
}

#[test]
fn switches_are_told_apart() {
    assert_eq!(toggles_aad(None, None, None), "");
    assert_eq!(toggles_aad(Some(true), None, Some(false)), "zdr=true;tee=false;");
    assert_ne!(toggles_aad(Some(true), None, None), toggles_aad(None, Some(true), None));
}

fn secrets() -> TicketSecrets {
    TicketSecrets { current: [1u8; 32], previous: [2u8; 32] }
}

/// What a client sends: its headers, and a message that only the server reads.
fn encrypted(text: &str, toggles: &str) -> (Vec<(String, String)>, String) {
    let server = [5u8; 32];
    let client = x25519_dalek::StaticSecret::from([6u8; 32]);
    let client_pub = x25519_dalek::PublicKey::from(&client).to_bytes();
    let server_pub = x25519_dalek::PublicKey::from(&x25519_dalek::StaticSecret::from(server));
    let shared = client.diffie_hellman(&server_pub).to_bytes();
    let prk = hkdf::Salt::new(hkdf::HKDF_SHA256, &[]).extract(&shared);
    let mut key = [0u8; 32];
    prk.expand(&[b"message_0_user"], hkdf::HKDF_SHA256).unwrap().fill(&mut key).unwrap();
    let mut aad = client_pub.to_vec();
    aad.extend_from_slice(b"GLMuser");
    aad.extend_from_slice(toggles.as_bytes());
    let mut data = text.as_bytes().to_vec();
    let cipher = aead::LessSafeKey::new(aead::UnboundKey::new(&aead::AES_256_GCM, &key).unwrap());
    cipher
        .seal_in_place_append_tag(
            aead::Nonce::assume_unique_for_key([7u8; 12]),
            aead::Aad::from(aad),
            &mut data,
        )
        .unwrap();
    let mut payload = [7u8; 12].to_vec();
    payload.extend_from_slice(&data);
    let ticket = ticket_for(&secrets(), &server, &[9u8; 12]);
    let h = headers(&[
        ("x-e2ee-enabled", "true"),
        ("x-kx-algo", "X25519"),
        ("x-client-pub-key", &base64ct::Base64::encode_string(&client_pub)),
        ("x-server-ticket", &ticket.encrypted_private_key),
    ]);
    (h, base64ct::Base64::encode_string(&payload))
}

#[test]
fn encrypted_requests_are_opened() {
    let (h, sealed) = encrypted("Hi", "");
    let mut r = request("GLM", &[&sealed]);
    let session = open_request(&mut r, &h, &secrets()).ok().unwrap();
    assert!(session.is_some());
    assert_eq!(r.messages[0].content, "Hi");
    // Whoever encrypts wants privacy, unless they say otherwise.
    assert_eq!((r.zdr, r.zds, r.tee), (Some(true), Some(true), Some(true)));

    let (h, sealed) = encrypted("Hi", "tee=false;");
    let mut r = request("GLM", &[&sealed]);
    r.tee = Some(false);
    assert!(open_request(&mut r, &h, &secrets()).is_ok());
    assert_eq!((r.zdr, r.tee), (Some(true), Some(false)));
}

#[test]
fn encryption_is_strict() {
    let said = |r: Result<_, deadrouter::admission::Refusal>| {
        let e: deadrouter::admission::Refusal = r.map(|_: Option<deadrouter::crypto_e2ee::E2eeSession>| ()).err().unwrap();
        (e.status, e.message)
    };
    let (h, sealed) = encrypted("Hi", "");
    let mut tampered = request("GLM", &[&sealed]);
    tampered.zdr = Some(false);
    assert_eq!(
        said(open_request(&mut tampered, &h, &secrets())),
        (400, "E2EE Decryption of messages failed.".to_string())
    );
    let old = TicketSecrets { current: [8u8; 32], previous: [9u8; 32] };
    assert_eq!(
        said(open_request(&mut request("GLM", &[&sealed]), &h, &old)),
        (401, "E2EE Ticket expired or invalid.".to_string())
    );
    let alone = headers(&[("x-e2ee-enabled", "true")]);
    let strict = (
        400,
        "E2EE is strictly enforced but decryption or key exchange failed/was not provided.".to_string(),
    );
    assert_eq!(said(open_request(&mut request("GLM", &["Hi"]), &alone, &secrets())), strict);
    let mut short = h.clone();
    short[2].1 = "AAAA".to_string();
    assert_eq!(said(open_request(&mut request("GLM", &[&sealed]), &short, &secrets())), strict);
    let mut plain = request("GLM", &["Hi"]);
    assert!(open_request(&mut plain, &headers(&[]), &secrets()).ok().unwrap().is_none());
    assert_eq!((plain.messages[0].content.as_str(), plain.zdr), ("Hi", None));
}

#[test]
fn clients_may_speak_to_enclaves_themselves() {
    assert!(passthrough_key(&headers(&[])).ok().unwrap().is_none());
    let both = headers(&[("x-nearai-e2ee-enabled", "true"), ("x-nearai-client-pub-key", "ab")]);
    assert_eq!(passthrough_key(&both).ok().unwrap().unwrap(), "ab");
    let e = passthrough_key(&headers(&[("x-nearai-e2ee-enabled", "true")])).err().unwrap();
    assert_eq!(
        (e.status, e.message.as_str()),
        (400, "X-NearAI-E2EE-Enabled is true but X-NearAI-Client-Pub-Key is missing")
    );
}

// Selection

fn provider(id: &str, rating: u8, tee: bool) -> ProviderConfig {
    ProviderConfig {
        id: id.to_string(),
        name: id.to_string(),
        description: String::new(),
        legal_location: String::new(),
        data_processing_location: String::new(),
        location: String::new(),
        endpoint: String::new(),
        api_key: String::new(),
        privacy_rating: rating,
        zdr: true,
        zds: true,
        tee,
    }
}

fn providers() -> Vec<ProviderConfig> {
    vec![provider("near-ai", 5, true), provider("infomaniak", 4, false), provider("chutes", 5, true)]
}

fn routes() -> Vec<(String, Vec<String>)> {
    let all = ["infomaniak", "ghost", "chutes", "near-ai"].iter().map(|s| s.to_string()).collect();
    vec![("glm".to_string(), all), ("kimi".to_string(), vec!["infomaniak".to_string()])]
}

fn chosen(tee: Option<bool>, passing: bool, list: Option<&[&str]>) -> Result<Vec<usize>, String> {
    let d = Demands { zdr: None, zds: Some(true), tee, passing };
    let list = list.map(|l| l.iter().map(|s| s.to_string()).collect());
    choose_providers("glm", &routes(), &providers(), &d, &list).map_err(|e| {
        assert_eq!(e.status, 400);
        e.message
    })
}

#[test]
fn providers_meet_the_demands() {
    assert_eq!(chosen(None, false, None), Ok(vec![1, 2, 0]));
    assert_eq!(chosen(Some(true), false, None), Ok(vec![2, 0]));
    assert_eq!(chosen(Some(false), false, None), Ok(vec![1, 2, 0]));
    assert_eq!(chosen(None, true, None), Ok(vec![0]));
    assert_eq!(chosen(None, false, Some(&["near-ai", "others"])), Ok(vec![0, 1, 2]));
    assert_eq!(chosen(None, false, Some(&["chutes", "chutes"])), Ok(vec![2, 2]));
    assert_eq!(
        chosen(Some(true), false, Some(&["infomaniak"])).unwrap_err(),
        "Requested provider 'infomaniak' does not exist."
    );
    assert_eq!(
        chosen(None, false, Some(&[])).unwrap_err(),
        "No AI providers match your provider requirements."
    );
    let d = Demands { zdr: None, zds: None, tee: Some(true), passing: false };
    let kimi = |d: &Demands, m: &str| choose_providers(m, &routes(), &providers(), d, &None).err().unwrap().message;
    assert_eq!(kimi(&d, "kimi"), "No AI providers match your provider requirements.");
    assert_eq!(kimi(&d, "grok"), "Unsupported model: grok");
    let passing = Demands { zdr: None, zds: None, tee: None, passing: true };
    assert_eq!(
        kimi(&passing, "kimi"),
        "X-NearAI-E2EE-Enabled requires a model supported by the 'near-ai' provider."
    );
}

#[test]
fn providers_are_put_in_order() {
    let rating = Some("privacy_rating".to_string());
    assert!(arrangement(&rating, true) == Arrangement::ByRating);
    assert!(arrangement(&None, true) == Arrangement::AsNamed);
    assert!(arrangement(&None, false) == Arrangement::Shuffled);
    assert!(arrangement(&Some("x".to_string()), true) == Arrangement::Shuffled);
    let order = |how: Arrangement| arrange(&vec![1, 2, 0], &providers(), how, &vec![3, 1, 2]);
    assert_eq!(order(Arrangement::ByRating), vec![2, 0, 1]);
    assert_eq!(order(Arrangement::AsNamed), vec![1, 2, 0]);
    assert_eq!(order(Arrangement::Shuffled), vec![2, 0, 1]);
}

#[test]
fn whole_requests_are_routed() {
    let (h, sealed) = encrypted("Hi", "");
    let mut r = request("GLM", &[&sealed]);
    let routed = route_request(&mut r, &h, &secrets(), &routes(), &providers()).ok().unwrap();
    assert_eq!(routed.model, "glm");
    assert_eq!(routed.providers, vec![2, 0]);
    assert!(routed.session.is_some());
    assert!(routed.passthrough.is_none());
    assert_eq!((r.store, r.cache_prompt), (Some(false), Some(false)));
    let mut unknown = request("grok", &["Hi"]);
    let e = route_request(&mut unknown, &headers(&[]), &secrets(), &routes(), &providers()).err().unwrap();
    assert_eq!(e.message, "Unsupported model: grok");
}

#[test]
fn providers_have_their_dialects() {
    assert!(dialect("tinfoil").unwrap() == Dialect::Tinfoil);
    assert_eq!(dialect("acme").err().unwrap(), "Provider acme not implemented.");
    assert_eq!(answer_headers_for(true)[2], ("Connection", "keep-alive".to_string()));
    assert_eq!(answer_headers_for(false).len(), 2);
    let mut r = request("glm", &[]);
    r.address_to("up/glm");
    assert_eq!(r.model, "up/glm");
    assert!(r.stream_options == Some(StreamOptions { include_usage: true }));
    assert!(r.wants_usage());
}

// Routes

fn goes(method: Method, path: &str) -> Route {
    route(method, path, None)
}

#[test]
fn paths_lead_where_they_should() {
    assert!(matches!(goes(Method::Get, "/health"), Route::Health));
    assert!(matches!(goes(Method::Get, "/fonts/a.woff2"), Route::Font(f) if f == "a.woff2"));
    assert!(matches!(goes(Method::Get, "/static/../key"), Route::Forbidden));
    assert!(matches!(goes(Method::Get, "/static/a\\b"), Route::Forbidden));
    assert!(matches!(goes(Method::Get, "/static/a.css"), Route::StaticFile(f) if f == "a.css"));
    assert!(matches!(goes(Method::Get, "/favicon.ico"), Route::Favicon));
    assert!(matches!(goes(Method::Options, "/anything"), Route::Preflight));
    assert!(matches!(goes(Method::Post, "/v1/chat/completions"), Route::ChatCompletions));
    assert!(matches!(goes(Method::Get, "/v1/chat/completions"), Route::Nothing));
    assert!(matches!(goes(Method::Get, "/v1/models"), Route::ModelsList));
    assert!(matches!(goes(Method::Post, "/v1/keys/ephemeral"), Route::EphemeralKeys));
    assert!(matches!(goes(Method::Get, "/v1/models/nearai/glm/key"), Route::NearAiKey));
    assert!(matches!(goes(Method::Get, "/"), Route::Landing(Locale::La)));
    assert!(matches!(goes(Method::Get, "/en/models"), Route::Models(Locale::En)));
    assert!(matches!(goes(Method::Get, "/providers"), Route::Providers(Locale::La)));
    assert!(matches!(goes(Method::Get, "/nope"), Route::NotFound(Locale::La)));
    assert!(matches!(goes(Method::Post, "/en"), Route::NotFound(Locale::En)));
    assert!(matches!(route(Method::Get, "/la/models", Some("q=x")), Route::Redirect(l) if l == "/models?q=x"));
    assert_eq!(font_mime("a.ttf"), "font/ttf");
    assert_eq!(font_mime("ttf.exe"), "application/octet-stream");
    assert_eq!(static_mime("a.b.jpeg"), "image/jpeg");
    assert_eq!(static_mime("svg"), "image/svg+xml");
}

#[test]
fn plain_transport_leads_to_tls() {
    assert_eq!(https_target(Some("a.example:80"), false, "/x"), "https://a.example:443/x");
    assert_eq!(https_target(None, true, "/"), "https://localhost:5443/");
    assert_eq!(ports(false), (443, 80));
    assert_eq!(ports(true), (5443, 5001));
    assert_eq!(onion_port("Begin(Begin { port: 443 })"), Some(443));
    assert_eq!(onion_port("Begin(Begin { port: 80 })"), Some(80));
    assert_eq!(onion_port("Begin(Begin { port: 22 })"), None);
    assert!(matches!(plain_onion("x.onion", "/v1/models", None), PlainOnion::Serve));
    match plain_onion("x.onion", "/models", Some("/models?q=1")) {
        PlainOnion::Redirect(url) => assert_eq!(url, "https://x.onion/models?q=1"),
        PlainOnion::Serve => panic!("pages are shown over TLS"),
    }
    assert_eq!(onion_protocol(true, false), "Tor Onion (HTTP/2)");
    assert_eq!(onion_protocol(false, true), "Tor Onion (HTTP/1.1) [Plaintext]");
    assert_eq!(onion_nickname(&[0xab; 16]), "ab".repeat(16));
    let h = with_transport_security(vec![("A", "b".to_string())]);
    assert_eq!(h[0], ("Strict-Transport-Security", "max-age=63072000; includeSubDomains".to_string()));
    assert_eq!(h[1], ("A", "b".to_string()));
}

// Headers and errors

#[test]
fn headers_are_looked_up_in_lower_case() {
    let h = headers_to_map(&vec![
        ("X-A".to_string(), Some("1".to_string())),
        ("x-b".to_string(), None),
        ("x-a".to_string(), Some("2".to_string())),
    ]);
    assert_eq!(h, headers(&[("x-a", "2")]));
}

#[test]
fn pages_load_nothing_else() {
    let digest = aws_lc_rs::digest::digest(&aws_lc_rs::digest::SHA512, b"body{}");
    let hash = format!("'sha512-{}'", base64ct::Base64::encode_string(digest.as_ref()));
    assert_eq!(compute_sha512_b64("body{}"), hash);
    assert_eq!(get_style_hash("body{}\n \n"), hash);
    assert_eq!(get_404_style_hash("body{}\n"), hash);
    let h = get_security_headers(&hash);
    assert_eq!(h.len(), 5);
    assert!(h[0].1.contains(&format!("style-src {};", hash)));
    assert_eq!(h[1], ("X-Frame-Options", "DENY".to_string()));
}

#[test]
fn upstream_errors_fit_on_a_line() {
    assert_eq!(
        format_upstream_error("429 Too Many Requests", Some("7"), "a\r\nb"),
        "Upstream error: 429 Too Many Requests [Retry-After: 7] - a b"
    );
    assert_eq!(format_upstream_error("500", Some(""), "x"), "Upstream error: 500 - x");
    let long = "y".repeat(151);
    assert_eq!(
        format_upstream_error("500", None, &long),
        format!("Upstream error: 500 - {}...", "y".repeat(147))
    );
    assert_eq!(
        format_upstream_error("500", None, &"y".repeat(150)),
        format!("Upstream error: 500 - {}", "y".repeat(150))
    );
}

#[test]
fn keys_are_asked_of_the_right_enclave() {
    let path = "/v1/models/nearai/GLM-5.1/key";
    assert_eq!(
        near_key_url(path, "", None),
        "https://glm-5-1.completions.near.ai/v1/attestation/report?signing_algo=ed25519&include_tls_fingerprint=true"
    );
    let models = vec![(
        "glm-5.1".to_string(),
        DynamicModelInfo {
            upstream_model_name: String::new(),
            name: String::new(),
            price_input_1m: 0,
            price_output_1m: 0,
            context_length: 0,
            max_completion_tokens: 0,
            supported_sampling_parameters: Json::Null,
            supported_features: Json::Null,
            direct_endpoint: Some("https://e".to_string()),
        },
    )];
    assert_eq!(near_key_url(path, "nonce=1", Some(&models)), "https://e/v1/attestation/report?nonce=1");
    says(&plain_error("x"), r#"{"error":"x"}"#);
}

#[test]
fn nothing_but_envelopes_goes_along() {
    let h = headers(&[
        ("ehbp-encapsulated-key", "k"),
        ("authorization", "Bearer user"),
        ("cookie", "c"),
        ("content-type", "application/octet-stream"),
    ]);
    let along = forwarded_headers(&h);
    assert!(along.iter().any(|(k, v)| k.to_lowercase() == "ehbp-encapsulated-key" && v == "k"));
    assert!(!along.iter().any(|(k, _)| k == "cookie" || k == "authorization"));
    assert!(is_stream("text/event-stream; charset=utf-8"));
    assert!(!is_stream("application/json"));
    assert_eq!(relay_refusal(503, "down").status, 503);
}

#[test]
fn the_relay_says_why_it_is_not_ready() {
    let well = ProviderHealthState::default();
    let held = ProviderHealthState { consecutive_errors: 1, rate_limited_until: Some(10) };
    let said = |p: Option<(ProviderHealthState, &str)>| check_ready(p, 5).err().map(|e| (e.status, e.message));
    assert_eq!(said(Some((well, "key"))), None);
    assert_eq!(said(None), Some((500, "Tinfoil provider is not configured.".to_string())));
    assert_eq!(
        said(Some((held, "key"))),
        Some((503, "Tinfoil provider is currently rate-limited or unhealthy.".to_string()))
    );
    assert_eq!(said(Some((well, ""))), Some((500, "Tinfoil API key is missing.".to_string())));
}

// Limits

const SECOND: u64 = 1_000_000_000;

#[test]
fn addresses_are_shut_out_for_longer_and_longer() {
    let mut d = DosProtection::new();
    let ip = Address::V4(0x01020304);
    let mut now = 0;
    for ban in [60, 300, 3600, 86400, 604800, 604800] {
        for _ in 0..100 {
            assert_eq!(d.check_request(ip, now), Ok(()));
        }
        assert_eq!(d.check_request(ip, now), Err(ban));
        assert_eq!(d.check_request(ip, now + ban * SECOND - 1), Err(1));
        now += ban * SECOND;
    }
    // Requests that lie more than a minute back no longer count.
    let mut d = DosProtection::new();
    for i in 0..300u64 {
        assert_eq!(d.check_request(ip, i * SECOND), Ok(()));
    }
}

#[test]
fn networks_are_shut_out_too() {
    let mut d = DosProtection::new();
    for i in 0..1000u32 {
        assert_eq!(d.check_request(Address::V4(0x0a000000 + i % 200), 5), Ok(()));
    }
    assert_eq!(d.check_request(Address::V4(0x0a0000ff), 5), Err(300));
    assert_eq!(d.check_request(Address::V4(0x0a000001), 5 + 10 * SECOND), Err(290));
    assert_eq!(d.check_request(Address::V4(0x0a000101), 5), Ok(()));
    assert_eq!(d.check_request(Address::V6(1), 5), Err(3600));
    assert_eq!(d.check_request(Address::V6(0xffff_0b00_0001), 5), Ok(()));
}

#[test]
fn connections_are_counted() {
    let mut d = DosProtection::new();
    let ip = Address::V4(7);
    let mut held = Vec::new();
    for _ in 0..25 {
        held.push(d.try_acquire_connection(ip).unwrap());
    }
    assert!(d.try_acquire_connection(ip).is_none());
    assert!(d.try_acquire_connection(Address::V4(8)).is_some());
    d.decrement_connection(held.pop().unwrap());
    assert!(d.try_acquire_connection(ip).is_some());
    assert!(d.try_acquire_connection(Address::V6(9)).is_none());
    // No more than fifteen thousand in all.
    let mut d = DosProtection::new();
    for i in 0..15000u32 {
        assert!(d.try_acquire_connection(Address::V4(i / 25)).is_some());
    }
    assert!(d.try_acquire_connection(Address::V4(99999)).is_none());
}

#[test]
fn the_filter_forgets() {
    let mut f = CuckooFilter::<u8>::with_capacity(5);
    assert_eq!(f.add(&3), Ok(()));
    assert!(!f.contains(&3));
}

#[test]
fn dates_are_read() {
    assert_eq!(parse_http_date("Mon, 01 Jun 2026 12:41:36 GMT"), Some(1780317696));
    assert_eq!(parse_http_date("Thu, 01 Jan 1970 00:00:00 GMT"), Some(0));
    assert_eq!(parse_http_date("Thu, 29 Feb 2024 00:00:00 GMT"), Some(1709164800));
    assert_eq!(parse_http_date("Fri, 01 Mar 2024 00:00:00 GMT"), Some(1709251200));
    assert_eq!(parse_http_date("Mon, 01 Foo 2026 12:41:36 GMT"), None);
    assert_eq!(parse_http_date("Mon, 01 Jun 2026"), None);
}
