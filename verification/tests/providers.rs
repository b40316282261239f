use deadrouter::admission::Refusal;
use deadrouter::catalog::apply_models;
use deadrouter::catalog::listing;
use deadrouter::catalog::models_url;
use deadrouter::chat::Message;
use deadrouter::chutes::read_instances;
use deadrouter::chutes::resolve_chute_id;
use deadrouter::chutes::CachedChutesNonces;
use deadrouter::chutes::ChutesInstanceInfo;
use deadrouter::chutes_flow::begin_call;
use deadrouter::chutes_flow::ChutesAction;
use deadrouter::chutes_flow::ChutesCall;
use deadrouter::chutes_flow::Reply;
use deadrouter::failover::Failover;
use deadrouter::health::classify_failure;
use deadrouter::health::classify_status;
use deadrouter::health::cooldown;
use deadrouter::health::retry_after;
use deadrouter::health::Failure;
use deadrouter::health::ProviderHealthState;
use deadrouter::infomaniak::find_price;
use deadrouter::infomaniak::normalize_messages;
use deadrouter::json::Json;
use deadrouter::nearai_models::attestation_url;
use deadrouter::nearai_models::domain_of;
use deadrouter::nearai_models::get_direct_endpoint;
use deadrouter::nearai_models::get_hardcoded_endpoints;
use deadrouter::nearai_models::read_servers;
use deadrouter::providers::known_providers;
use deadrouter::providers::ProviderKeys;
use deadrouter::state::ChutesState;
use deadrouter::state::DynamicModelInfo;

fn from_value(v: &serde_json::Value) -> Json {
    match v {
        serde_json::Value::Null => Json::Null,
        serde_json::Value::Bool(b) => Json::Bool(*b),
        serde_json::Value::Number(n) => {
            if let Some(u) = n.as_u64() {
                Json::Unsigned(u)
            } else if let Some(i) = n.as_i64() {
                Json::Signed(i)
            } else {
                Json::Float(n.as_f64().unwrap().to_bits())
            }
        }
        serde_json::Value::String(s) => Json::Str(s.clone()),
        serde_json::Value::Array(a) => Json::Arr(a.iter().map(from_value).collect()),
        serde_json::Value::Object(o) => {
            Json::Obj(o.iter().map(|(k, v)| (k.clone(), from_value(v))).collect())
        }
    }
}

fn to_value(v: &Json) -> serde_json::Value {
    match v {
        Json::Null => serde_json::Value::Null,
        Json::Bool(b) => serde_json::Value::from(*b),
        Json::Unsigned(u) => serde_json::Value::from(*u),
        Json::Signed(i) => serde_json::Value::from(*i),
        Json::Float(bits) => serde_json::Value::from(f64::from_bits(*bits)),
        Json::Str(s) => serde_json::Value::from(s.clone()),
        Json::Arr(a) => serde_json::Value::from(a.iter().map(to_value).collect::<Vec<_>>()),
        Json::Obj(o) => serde_json::Value::Object(o.iter().map(|(k, v)| (k.clone(), to_value(v))).collect()),
    }
}

/// Reads a JSON text.
fn json(text: &str) -> Json {
    from_value(&serde_json::from_str(text).unwrap())
}

/// Whether a value says what a JSON text says.
fn says(v: &Json, text: &str) {
    let expected: serde_json::Value = serde_json::from_str(text).unwrap();
    assert_eq!(to_value(v), expected);
}

fn list(text: &str) -> Vec<Json> {
    match json(text) {
        Json::Arr(v) => v,
        _ => panic!("a list is expected"),
    }
}

// Listings

#[test]
fn listings_come_in_two_shapes() {
    assert_eq!(listing(&json(r#"{"data":[1,2]}"#)).unwrap().len(), 2);
    assert_eq!(listing(&json("[1]")).unwrap().len(), 1);
    assert_eq!(
        listing(&json(r#"{"data":1}"#)).err().unwrap(),
        "Missing 'data' array in /v1/models response"
    );
    assert_eq!(listing(&json("{}")).err().unwrap(), "Unexpected /v1/models response format");
    assert_eq!(
        models_url("near-ai", "https://cloud-api.near.ai/v1/chat/completions"),
        "https://cloud-api.near.ai/v1/models"
    );
    assert_eq!(models_url("tinfoil", "x"), "https://inference.tinfoil.sh/v1/models");
    assert_eq!(
        models_url("infomaniak", "x"),
        "https://api.infomaniak.com/1/ai/models?with=pricing"
    );
}

#[test]
fn chutes_lists_confidential_models() {
    let data = list(
        r#"[{"id":"zai-org/GLM-5-FP8","confidential_compute":true,"context_length":9,"supported_features":["x"]},
            {"id":"open/Model","confidential_compute":false},{"confidential_compute":true}]"#,
    );
    let models = deadrouter::chutes::parse_models(&data, &vec![(1, 2), (3, 4), (5, 6)]);
    assert_eq!(models.len(), 1);
    assert_eq!(models[0].0, "glm-5");
    let info = &models[0].1;
    assert_eq!(info.upstream_model_name, "zai-org/GLM-5-FP8");
    assert_eq!(info.name, "glm-5");
    assert_eq!((info.price_input_1m, info.price_output_1m), (1, 2));
    assert_eq!((info.context_length, info.max_completion_tokens), (9, 0));
    says(&info.supported_sampling_parameters, "null");
    says(&info.supported_features, r#"["x"]"#);
}

#[test]
fn near_ai_lists_text_models_with_an_enclave() {
    let mapping = get_hardcoded_endpoints();
    let servers = read_servers(&mapping);
    assert_eq!(servers.len(), 13);
    assert!(servers.contains(&("openai/gpt-oss-120b".to_string(), "gpt-oss-120b.completions.near.ai".to_string())));
    let data = list(
        r#"[{"id":"openai/gpt-oss-120b","input_modalities":["text"],"output_modalities":["text"],
               "context_length":7,"top_provider":{"max_completion_tokens":8},
               "supported_sampling_parameters":["seed","stop"]},
            {"id":"zai-org/GLM-5-FP8","architecture":{"inputModalities":["text"],"outputModalities":["text"]}},
            {"id":"Qwen/Qwen3-VL-30B-A3B-Instruct","input_modalities":["text","image"],"output_modalities":["text"]},
            {"id":"Qwen/Qwen3-Embedding-0.6B","input_modalities":["text"],"output_modalities":["text"]},
            {"id":"no/enclave","input_modalities":["text"],"output_modalities":["text"]}]"#,
    );
    let prices = vec![(1, 1), (2, 2), (3, 3), (4, 4), (5, 5)];
    let models = deadrouter::nearai_models::parse_models(&mapping, &data, &prices);
    assert_eq!(models.len(), 2);
    let gpt = &models[0].1;
    assert_eq!(models[0].0, "gpt-oss-120b");
    assert_eq!(gpt.direct_endpoint.as_deref(), Some("https://gpt-oss-120b.completions.near.ai"));
    assert_eq!((gpt.context_length, gpt.max_completion_tokens), (7, 8));
    says(&gpt.supported_sampling_parameters, r#"["seed"]"#);
    assert_eq!(models[1].0, "glm-5");
    assert_eq!((models[1].1.context_length, models[1].1.max_completion_tokens), (128000, 4096));
    says(&models[1].1.supported_features, "[]");
}

#[test]
fn near_ai_enclaves_are_found_by_name() {
    assert_eq!(get_direct_endpoint("GLM-5.1"), "https://glm-5-1.completions.near.ai");
    assert_eq!(domain_of("https://glm-5.completions.near.ai/"), "glm-5.completions.near.ai");
    assert_eq!(
        attestation_url("https://x", &[0xab; 32]),
        format!(
            "https://x/v1/attestation/report?signing_algo=ed25519&include_tls_fingerprint=true&nonce={}",
            "ab".repeat(32)
        )
    );
}

#[test]
fn redpill_keeps_the_cheapest_offer() {
    let data = list(
        r#"[{"id":"a/GLM-5-1","providers":["chutes"],"name":"First"},
            {"id":"b/GLM-5.1","providers":["phala","near-ai"],"name":"Second"},
            {"id":"c/glm-5.1","providers":["phala"],"name":"Third"},
            {"id":"d/other","providers":["acme"]},{"id":"e/none","providers":[]}]"#,
    );
    let prices = vec![(1, 1), (2, 2), (3, 3), (4, 4), (5, 5)];
    let costs = vec![Some(9), Some(5), Some(5), Some(1), Some(1)];
    let models = deadrouter::redpill::parse_models(&data, &prices, &costs);
    assert_eq!(models.len(), 1);
    assert_eq!(models[0].0, "glm-5.1");
    assert_eq!(models[0].1.name, "Second");
    assert_eq!(models[0].1.price_input_1m, 2);
}

#[test]
fn tinfoil_lists_its_own_text_models() {
    let data = list(
        r#"[{"id":"kimi-k2-6","owned_by":"tinfoil","type":"chat","context_window":5},
            {"id":"llama3-3-70b","providers":["tinfoil"],"input_modalities":["text"],"top_provider":{"max_completion_tokens":6}},
            {"id":"whisper","owned_by":"tinfoil","type":"audio"},{"id":"x","owned_by":"acme","type":"chat"}]"#,
    );
    let models = deadrouter::tinfoil::parse_models(&data, &vec![(1, 2), (3, 4), (5, 6), (7, 8)]);
    assert_eq!(models.len(), 2);
    assert_eq!(models[0].0, "kimi-k2.6");
    assert_eq!(models[0].1.upstream_model_name, "kimi-k2-6");
    assert_eq!((models[0].1.context_length, models[0].1.max_completion_tokens), (5, 4096));
    assert_eq!(models[1].0, "llama-3.3-70b-instruct");
    assert_eq!((models[1].1.context_length, models[1].1.max_completion_tokens), (8192, 6));
    says(&models[1].1.supported_sampling_parameters, r#"["temperature","top_p","max_tokens"]"#);
}

#[test]
fn infomaniak_lists_language_models() {
    let data = list(
        r#"[{"type":"llm","name":"Org/Apertus-70B-Instruct-2509","max_token_input":11},{"type":"image","name":"flux"},{"type":"llm"}]"#,
    );
    let models = deadrouter::infomaniak::parse_models(&data, &vec![(1, 2), (3, 4), (5, 6)]);
    assert_eq!(models.len(), 1);
    assert_eq!(models[0].0, "apertus-70b-instruct-2509");
    assert_eq!(models[0].1.context_length, 11);
    let entry = json(r#"{"prices":[{"currency_id":2,"n":1},{"currency_id":1,"n":2},{"n":3}]}"#);
    says(find_price(&entry).unwrap(), r#"{"currency_id":1,"n":2}"#);
    says(find_price(&json(r#"{"prices":[{"n":3}]}"#)).unwrap(), r#"{"n":3}"#);
    assert!(find_price(&json(r#"{"prices":[{"currency_id":7}]}"#)).is_none());
}

fn info(name: &str) -> DynamicModelInfo {
    DynamicModelInfo {
        upstream_model_name: name.to_string(),
        name: name.to_string(),
        price_input_1m: 10,
        price_output_1m: 20,
        context_length: 0,
        max_completion_tokens: 0,
        supported_sampling_parameters: Json::Null,
        supported_features: Json::Null,
        direct_endpoint: None,
    }
}

#[test]
fn offered_models_are_routed() {
    let mut known = vec![("glm".to_string(), info("old"))];
    let mut routes = vec![("glm".to_string(), vec!["chutes".to_string()])];
    let found = vec![("glm".to_string(), info("new")), ("kimi".to_string(), info("kimi"))];
    apply_models(&mut known, &mut routes, &found, "near-ai");
    apply_models(&mut known, &mut routes, &found, "near-ai");
    assert_eq!(known.len(), 2);
    assert_eq!(known[0].1.upstream_model_name, "new");
    assert_eq!(routes[0].1, vec!["chutes", "near-ai"]);
    assert_eq!(routes[1], ("kimi".to_string(), vec!["near-ai".to_string()]));
}

// Messages

fn message(role: &str, content: &str) -> Message {
    Message { role: role.to_string(), content: content.to_string() }
}

#[test]
fn only_the_first_message_instructs() {
    let out = normalize_messages(vec![
        message("system", "a"),
        message("system", "b"),
        message("user", "c"),
        message("system", "d"),
        message("assistant", "e"),
    ]);
    let shown: Vec<(&str, &str)> = out.iter().map(|m| (m.role.as_str(), m.content.as_str())).collect();
    assert_eq!(
        shown,
        vec![("system", "a\n\nb"), ("user", "c"), ("user", "d"), ("assistant", "e")]
    );
}

// Health

#[test]
fn failures_are_told_apart() {
    assert!(classify_failure("Upstream error: 400 Bad Request - x") == Failure::BadRequest);
    assert!(classify_failure("status 429 given") == Failure::RateLimited);
    assert!(classify_failure("timeout") == Failure::Other);
    assert!(classify_status(400, "") == Failure::BadRequest);
    assert!(classify_status(429, "") == Failure::RateLimited);
    assert!(classify_status(500, "429 Too Many Requests") == Failure::RateLimited);
    assert!(classify_status(500, "") == Failure::Other);
    assert_eq!(retry_after("x [Retry-After: 17] y"), Some(17));
    assert_eq!(retry_after("x [Retry-After: soon]"), None);
    assert_eq!(retry_after("x"), None);
    assert_eq!(cooldown(Failure::RateLimited, "x", 3), 180);
    assert_eq!(cooldown(Failure::RateLimited, "x", 99), 900);
    assert_eq!(cooldown(Failure::RateLimited, "[Retry-After: 5]", 99), 5);
    assert_eq!(cooldown(Failure::Other, "x", 9), 30);
}

#[test]
fn failing_providers_are_left_alone() {
    let mut h = ProviderHealthState::default();
    assert!(h.record_failure(Failure::Other, "x", 100));
    assert_eq!(h.rate_limited_until, Some(130));
    assert!(h.is_rate_limited(129));
    assert!(!h.is_rate_limited(130));
    assert!(h.record_failure(Failure::RateLimited, "x", 200));
    assert_eq!((h.consecutive_errors, h.rate_limited_until), (2, Some(320)));
    assert!(h.record_failure(Failure::BadRequest, "x", 300));
    assert_eq!((h.consecutive_errors, h.rate_limited_until), (0, None));
    h.mark_provider_unhealthy(10, 5);
    assert_eq!((h.consecutive_errors, h.rate_limited_until), (1, Some(15)));
    assert!(!h.record_failure(Failure::Other, "x", u64::MAX));
    assert_eq!(h.rate_limited_until, Some(15));
    h.mark_provider_healthy();
    assert!(!h.is_rate_limited(0));
}

#[test]
fn providers_are_asked_in_turn() {
    let held = ProviderHealthState { consecutive_errors: 1, rate_limited_until: Some(50) };
    let mut health = vec![ProviderHealthState::default(), held, ProviderHealthState::default()];
    let mut f = Failover::new(vec![2, 1, 0]);
    assert_eq!(f.next_try(&health, 10), Some(2));
    assert!(f.failed("tinfoil", &mut health[2], "secret detail 429 Too Many Requests", 10));
    assert_eq!(health[2].rate_limited_until, Some(70));
    assert_eq!(f.next_try(&health, 10), Some(0));
    assert!(f.failed("near-ai", &mut health[0], "another detail", 10));
    assert_eq!(f.next_try(&health, 10), None);
    let Refusal { status, message } = f.exhausted();
    assert_eq!(status, 502);
    assert_eq!(
        message,
        "All available AI providers failed to process the request. Last failure: Provider 'near-ai' encountered an internal or upstream error (Unknown/500)"
    );
    f.answered(&mut health[2]);
    assert_eq!(health[2].rate_limited_until, None);

    let mut idle = Failover::new(vec![1]);
    assert_eq!(idle.next_try(&health, 10), None);
    assert_eq!(
        idle.exhausted().message,
        "All available AI providers failed to process the request. Last failure: All providers failed."
    );
    let mut open = Failover::new(vec![1]);
    assert_eq!(open.next_try(&health, 50), Some(1));
}

#[test]
fn the_known_providers_are_described() {
    let keys = ProviderKeys {
        near_ai: "k1".to_string(),
        chutes: "k2".to_string(),
        redpill: "k3".to_string(),
        infomaniak: "k4".to_string(),
        tinfoil: "k5".to_string(),
    };
    let all = known_providers(&keys, "77");
    let ids: Vec<&str> = all.iter().map(|p| p.id.as_str()).collect();
    assert_eq!(ids, vec!["near-ai", "chutes", "redpill", "infomaniak", "tinfoil"]);
    assert_eq!(all[3].endpoint, "https://api.infomaniak.com/2/ai/77/openai/v1/chat/completions");
    assert_eq!((all[3].privacy_rating, all[3].tee, all[3].zdr), (4, false, true));
    assert_eq!(all[4].api_key, "k5");
}

// Instances and nonces

fn instance(id: &str, nonces: &[&str]) -> ChutesInstanceInfo {
    ChutesInstanceInfo {
        instance_id: id.to_string(),
        e2e_pubkey: "k".to_string(),
        nonces: nonces.iter().map(|n| n.to_string()).collect(),
    }
}

#[test]
fn no_nonce_is_used_twice() {
    let mut pool = CachedChutesNonces::new(vec![instance("a", &["1", "2"]), instance("b", &["3"])], 100);
    assert_eq!(pool.remaining(), 3);
    let drawn: Vec<(String, String)> = (0..3)
        .map(|_| pool.take_nonce(99).unwrap())
        .map(|(i, n)| (i.instance_id, n))
        .collect();
    let expected = vec![("a", "2"), ("a", "1"), ("b", "3")];
    assert_eq!(drawn.iter().map(|d| (d.0.as_str(), d.1.as_str())).collect::<Vec<_>>(), expected);
    assert!(pool.take_nonce(99).is_none());
    let mut late = CachedChutesNonces::new(vec![instance("a", &["1"])], 100);
    assert!(late.take_nonce(100).is_none());
    assert!(late.is_expired(100));
    assert!(!late.is_expired(99));
}

#[test]
fn instances_are_read() {
    let (all, ttl) = read_instances(&json(
        r#"{"instances":[{"instance_id":"i","e2e_pubkey":"p","nonces":["n",5]},{"instance_id":"x"}],"nonce_expires_in":9}"#,
    ))
    .unwrap();
    assert_eq!(all.len(), 1);
    assert_eq!(all[0].nonces, vec!["n"]);
    assert_eq!(ttl, 9);
    assert_eq!(read_instances(&json(r#"{"instances":[]}"#)).unwrap().1, 50);
    assert_eq!(
        read_instances(&json("{}")).err().unwrap(),
        "Missing 'instances' array in discovery response"
    );
    let data = json(r#"{"data":[{"id":"m","chute_id":""},{"id":"m","chute_id":"c"}]}"#);
    assert_eq!(resolve_chute_id(&data, "m").unwrap(), "c");
    assert_eq!(
        resolve_chute_id(&data, "q").unwrap_err(),
        "Model 'q' not found in Chutes model listing"
    );
    assert_eq!(
        resolve_chute_id(&json("{}"), "q").unwrap_err(),
        "Missing 'data' array in models response"
    );
}

// A call from its first step to its last

fn begun(state: &mut ChutesState) -> (ChutesCall, ChutesAction) {
    let models = vec![("glm".to_string(), info("up/glm"))];
    match begin_call(&models, "glm", state, 1000) {
        Ok(pair) => pair,
        Err(_) => panic!("the model is known"),
    }
}

fn invoked(a: ChutesAction) -> (String, String) {
    match a {
        ChutesAction::Invoke(i, n) => (i.instance_id, n),
        _ => panic!("an instance is to be asked"),
    }
}

#[test]
fn calls_ask_only_trusted_instances() {
    let mut state = ChutesState::default();
    let (mut call, action) = begun(&mut state);
    assert!(matches!(action, ChutesAction::Resolve));
    assert_eq!((call.price_input_1m, call.price_output_1m), (10, 20));
    let action = call.on_resolved(&mut state, Ok("c1".to_string()), 1000);
    assert!(matches!(action, ChutesAction::Fetch));
    let instances = vec![instance("good", &["1", "2"]), instance("bad", &["3"])];
    let action = call.on_fetched(&mut state, Ok((instances, 1050)), &vec![7, 8], 1000);
    match action {
        ChutesAction::Attest(v) => assert_eq!(v.len(), 2),
        _ => panic!("evidence is to be checked"),
    }
    let action = call.on_attested(&mut state, Ok(vec!["good".to_string()]), &vec![7, 8], 1001);
    assert_eq!(invoked(action), ("good".to_string(), "2".to_string()));
    let action = call.on_reply(&mut state, Reply::Nothing("reset".to_string()), 1002);
    assert_eq!(invoked(action), ("good".to_string(), "1".to_string()));
    let done = Reply::Status(200, "200 OK".to_string(), String::new());
    assert!(matches!(call.on_reply(&mut state, done, 1003), ChutesAction::Finish));

    // What was learnt is remembered: the chute, the trust, and the spent pool.
    let (mut next, action) = begun(&mut state);
    assert_eq!(next.chute_id, "c1");
    assert!(matches!(action, ChutesAction::Fetch));
    let again = vec![instance("good", &["9"])];
    let action = next.on_fetched(&mut state, Ok((again, 1050)), &vec![1], 1004);
    assert_eq!(invoked(action), ("good".to_string(), "9".to_string()));
}

#[test]
fn calls_give_up_for_a_reason() {
    let mut state = ChutesState::default();
    let models = vec![("glm".to_string(), info("up/glm"))];
    match begin_call(&models, "kimi", &mut state, 1000) {
        Err(e) => assert_eq!(e, "Model kimi not configured"),
        Ok(_) => panic!("the model is not known"),
    }
    let failed = |a: ChutesAction| match a {
        ChutesAction::Fail(e) => e,
        _ => panic!("the call is to fail"),
    };
    let (mut call, _) = begun(&mut state);
    assert_eq!(failed(call.on_resolved(&mut state, Err("no chute".to_string()), 1000)), "no chute");
    let (mut call, _) = begun(&mut state);
    call.on_resolved(&mut state, Ok("c".to_string()), 1000);
    assert_eq!(failed(call.on_fetched(&mut state, Err("down".to_string()), &vec![], 1000)), "down");
    let some = vec![instance("i", &["1"])];
    call.on_fetched(&mut state, Ok((some, 1050)), &vec![1], 1000);
    let none = Err("no evidence".to_string());
    assert_eq!(
        failed(call.on_attested(&mut state, none, &vec![1], 1000)),
        "FATAL: No instances were successfully verified. Aborting."
    );
    let (mut call, _) = begun(&mut state);
    call.on_fetched(&mut state, Ok((vec![instance("i", &[])], 1050)), &vec![1], 1000);
    let stuck = call.on_attested(&mut state, Ok(vec!["i".to_string()]), &vec![1], 1000);
    assert!(matches!(stuck, ChutesAction::Stuck));
}

#[test]
fn calls_are_tried_five_times() {
    let mut state = ChutesState::default();
    let (mut call, _) = begun(&mut state);
    call.on_resolved(&mut state, Ok("c".to_string()), 1000);
    let nonces = ["1", "2", "3", "4", "5", "6", "7"];
    call.on_fetched(&mut state, Ok((vec![instance("i", &nonces)], 1050)), &vec![1], 1000);
    let mut action = call.on_attested(&mut state, Ok(vec!["i".to_string()]), &vec![1], 1000);
    let mut asked = 0;
    while let ChutesAction::Invoke(..) = action {
        asked += 1;
        let busy = Reply::Status(503, "503 Service Unavailable".to_string(), "busy".to_string());
        action = call.on_reply(&mut state, busy, 1000);
    }
    assert_eq!(asked, 5);
    match action {
        ChutesAction::Fail(e) => {
            assert_eq!(e, "All instances failed. Last error: 503 Service Unavailable - busy")
        }
        _ => panic!("the call is to fail"),
    }
    let (mut call, action) = begun(&mut state);
    invoked(action);
    let refused = Reply::Status(404, "404 Not Found".to_string(), "gone".to_string());
    match call.on_reply(&mut state, refused, 1000) {
        ChutesAction::Fail(e) => assert_eq!(e, "404 Not Found - gone"),
        _ => panic!("the call is to fail"),
    }
}

#[test]
fn instances_are_asked_in_the_order_drawn() {
    let mut state = ChutesState::default();
    let (mut call, _) = begun(&mut state);
    call.on_resolved(&mut state, Ok("c".to_string()), 1000);
    let all = vec![instance("a", &["1"]), instance("b", &["2"]), instance("c", &["3"])];
    call.on_fetched(&mut state, Ok((all, 1050)), &vec![30, 10, 20], 1000);
    let ids = vec!["a".to_string(), "b".to_string(), "c".to_string()];
    let action = call.on_attested(&mut state, Ok(ids), &vec![30, 10, 20], 1000);
    assert_eq!(invoked(action).0, "b");
    let retry = || Reply::Nothing("x".to_string());
    assert_eq!(invoked(call.on_reply(&mut state, retry(), 1000)).0, "c");
    assert_eq!(invoked(call.on_reply(&mut state, retry(), 1000)).0, "a");
}
