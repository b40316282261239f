use std::sync::Arc;

use base64ct::Encoding;

use deadrouter::chutes_call::on_stream_line;
use deadrouter::chutes_call::read_event_text;
use deadrouter::chutes_call::stream_read_failure;
use deadrouter::chutes_call::StreamStep;
use deadrouter::chutes_e2ee::chacha_encrypt_with;
use deadrouter::chutes_e2ee::StreamKey;
use deadrouter::crypto_e2ee::StreamRatchet;
use deadrouter::http::relay_line;
use deadrouter::json::Json;
use deadrouter::nearai_e2ee::v2_decrypt;
use deadrouter::nearai_e2ee::v2_encrypt;
use deadrouter::nearai_stream::encrypt_messages;
use deadrouter::nearai_stream::on_near_line;
use deadrouter::nearai_stream::put_sealed;
use deadrouter::nearai_stream::read_failure;
use deadrouter::nearai_stream::read_near_answer;
use deadrouter::nearai_stream::skips_decryption;
use deadrouter::nearai_stream::stream_failure;
use deadrouter::nearai_stream::NearStep;
use deadrouter::redaction::PiiMap;
use deadrouter::redaction::StreamingUnredactor;
use deadrouter::response::body_filler;
use deadrouter::response::chat_id_from;
use deadrouter::response::encrypt_answer;
use deadrouter::response::encrypt_answer_with;
use deadrouter::response::generate_chat_id;
use deadrouter::response::is_delivered;
use deadrouter::response::pad_raw_sse;
use deadrouter::response::sanitize_and_spoof_response;
use deadrouter::response::sse_event;
use deadrouter::response::sse_filler;
use deadrouter::response::usage_tokens;
use deadrouter::response::with_pad;
use deadrouter::timing::classify_line;
use deadrouter::timing::frame_lines;
use deadrouter::timing::Emission;
use deadrouter::timing::Line;
use deadrouter::timing::TimingAggregator;
use deadrouter::tinfoil_relay::detect_model;
use deadrouter::tinfoil_relay::event_content;
use deadrouter::tinfoil_relay::relay;
use deadrouter::tinfoil_relay::tinfoil_stream_failure;
use deadrouter::tinfoil_relay::LineBuffer;
use deadrouter::chat::Message;

fn from_value(v: &serde_json::Value) -> Json {
    match v {
        serde_json::Value::Null => Json::Null,
        serde_json::Value::Bool(b) => Json::Bool(*b),
        serde_json::Value::Number(n) => {
            if let Some(u) = n.as_u64() {
                Json::Unsigned(u)
            } else if let Some(i) = n.as_i64() {
                Json::Signed(i)
            } else {
                Json::Float(n.as_f64().unwrap().to_bits())
            }
        }
        serde_json::Value::String(s) => Json::Str(s.clone()),
        serde_json::Value::Array(a) => Json::Arr(a.iter().map(from_value).collect()),
        serde_json::Value::Object(o) => {
            Json::Obj(o.iter().map(|(k, v)| (k.clone(), from_value(v))).collect())
        }
    }
}

fn to_value(v: &Json) -> serde_json::Value {
    match v {
        Json::Null => serde_json::Value::Null,
        Json::Bool(b) => serde_json::Value::from(*b),
        Json::Unsigned(u) => serde_json::Value::from(*u),
        Json::Signed(i) => serde_json::Value::from(*i),
        Json::Float(bits) => serde_json::Value::from(f64::from_bits(*bits)),
        Json::Str(s) => serde_json::Value::from(s.clone()),
        Json::Arr(a) => serde_json::Value::from(a.iter().map(to_value).collect::<Vec<_>>()),
        Json::Obj(o) => serde_json::Value::Object(o.iter().map(|(k, v)| (k.clone(), to_value(v))).collect()),
    }
}

/// Reads a JSON text.
fn json(text: &str) -> Json {
    from_value(&serde_json::from_str(text).unwrap())
}

/// Whether a value says what a JSON text says.
fn says(v: &Json, text: &str) {
    let expected: serde_json::Value = serde_json::from_str(text).unwrap();
    assert_eq!(to_value(v), expected);
}

// Lines

#[test]
fn lines_are_told_apart() {
    assert!(matches!(classify_line("  \r\n"), Line::Nothing));
    assert!(matches!(classify_line("data: [DONE]\n"), Line::Done));
    assert!(matches!(classify_line("data:  {\"a\":1} "), Line::Data(s) if s == "{\"a\":1}"));
    assert!(matches!(classify_line("{\"error\":1}"), Line::Bare(s) if s == "{\"error\":1}"));
    assert!(matches!(classify_line(": comment"), Line::Other(s) if s == ": comment"));
    let lines = frame_lines(b"data: 1\n\ndata: [DONE]");
    assert_eq!(lines.len(), 3);
    assert!(matches!(&lines[0], Line::Data(s) if s == "1"));
    assert!(matches!(&lines[2], Line::Done));
    assert!(frame_lines(&[0xff, 0x00]).is_empty());
}

#[test]
fn lines_are_passed_on() {
    let some = Some("{}".to_string());
    assert_eq!(relay_line(&classify_line(""), &None), None);
    assert_eq!(relay_line(&classify_line("data: [DONE]"), &some).unwrap(), "data: [DONE]\n\n");
    assert_eq!(relay_line(&classify_line("data: x"), &some).unwrap(), "data: {}\n\n");
    assert_eq!(relay_line(&classify_line("data: x"), &None).unwrap(), "data: x\n\n");
    assert_eq!(relay_line(&classify_line(": hi"), &None).unwrap(), ": hi\n");
}

// The beat

fn event(e: Emission) -> Json {
    match e {
        Emission::Event(j) => j,
        _ => panic!("an event is to be sent"),
    }
}

#[test]
fn every_beat_gathers_what_arrived() {
    let mut t = TimingAggregator::new(None);
    says(&event(t.tick("")), r#"{"choices":[{"delta":{}}]}"#);
    t.absorb(&json(r#"{"id":"c1","object":"o","created":5,"model":"m","provider":"p",
        "choices":[{"delta":{"content":"Hel","reasoning_content":"hm"}}]}"#));
    t.absorb(&json(r#"{"id":"c2","choices":[{"delta":{"content":"lo"},"finish_reason":"stop"}]}"#));
    says(
        &event(t.tick("")),
        r#"{"id":"c1","object":"o","created":5,"model":"m","provider":"p",
            "choices":[{"index":0,"delta":{"content":"Hello","reasoning_content":"hm"},"finish_reason":"stop"}]}"#,
    );
    // What has been sent is not sent again.
    says(&event(t.tick("")), r#"{"choices":[{"delta":{}}]}"#);
    t.absorb(&json(r#"{"usage":{"total_tokens":3},"choices":[]}"#));
    t.finish_upstream();
    says(
        &event(t.tick("")),
        r#"{"id":"c1","object":"o","created":5,"model":"m","provider":"p","choices":[],"usage":{"total_tokens":3}}"#,
    );
    assert!(matches!(t.tick(""), Emission::Done));
    assert!(matches!(t.tick(""), Emission::Stop));
}

#[test]
fn errors_end_the_stream() {
    let mut t = TimingAggregator::new(None);
    t.absorb(&json(r#"{"choices":[{"delta":{"content":"lost"}}],"error":{"message":"no"}}"#));
    says(&event(t.tick("")), r#"{"error":{"message":"no"}}"#);
    assert!(matches!(t.tick(""), Emission::Stop));

    let mut t = TimingAggregator::new(None);
    t.absorb_bare(&json(r#"{"choices":[{"delta":{"content":"x"}}]}"#));
    says(&event(t.tick("")), r#"{"choices":[{"delta":{}}]}"#);
    t.absorb_bare(&json(r#"{"error":"bare"}"#));
    says(&event(t.tick("")), r#"{"error":"bare"}"#);
}

#[test]
fn beats_are_encrypted_for_the_client() {
    let ratchet = StreamRatchet::new(&[1u8; 32], &[2u8; 32], "m");
    let mut t = TimingAggregator::new(Some(ratchet));
    assert!(t.chunk_to_seal().is_none());
    says(&event(t.tick("")), r#"{"choices":[{"delta":{}}]}"#);
    t.absorb(&json(r#"{"id":"c","choices":[{"delta":{"reasoning_content":"hm","content":"secret"}}]}"#));
    let chunk = t.chunk_to_seal().unwrap();
    says(
        &chunk,
        r#"{"choices":[{"index":0,"delta":{"content":"secret","reasoning_content":"hm"}}],"id":"c"}"#,
    );
    // Without a nonce nothing goes out, and nothing is lost.
    assert!(matches!(t.tick_with("the chunk", None), Emission::Failed));
    let sent = event(t.tick_with("the chunk", Some([9u8; 12])));
    let mut other = StreamRatchet::new(&[1u8; 32], &[2u8; 32], "m");
    let expected = other.encrypt_chunk_with(b"the chunk", &[9u8; 12]);
    says(&sent, &format!(r#"{{"e2e":"{}"}}"#, expected));
    // Twelve bytes of nonce, the text, and sixteen of tag, in Base64.
    assert_eq!(expected.len(), (12usize + 9 + 16).div_ceil(3) * 4);

    // How an answer finished is sealed too; the end is not.
    t.absorb(&json(r#"{"choices":[{"delta":{},"finish_reason":"stop"}]}"#));
    t.finish_upstream();
    let chunk = t.chunk_to_seal().unwrap();
    says(&chunk, r#"{"choices":[{"index":0,"delta":{},"finish_reason":"stop"}],"id":"c"}"#);
    let sent = to_value(&event(t.tick("finish")));
    assert_eq!(sent.as_object().unwrap().len(), 1);
    assert_ne!(sent["e2e"], "finish");
    assert!(t.chunk_to_seal().is_none());
    assert!(matches!(t.tick(""), Emission::Done));
}

// Answers

#[test]
fn chat_ids_are_hexadecimal() {
    assert_eq!(chat_id_from(&[0xab; 16]), format!("chatcmpl-{}", "ab".repeat(16)));
    assert_ne!(generate_chat_id().unwrap(), generate_chat_id().unwrap());
}

#[test]
fn answers_show_only_known_fields() {
    let upstream = json(r#"{"id":"up","model":"up/m","created":7,"object":"chat","system_fingerprint":"f","secret":1,
        "choices":[{"index":0,"finish_reason":"stop","stop_sequence":9,
            "message":{"role":"assistant","content":"Hi","reasoning":"r","annotations":[]}},"junk"],
        "usage":{"prompt_tokens":3,"completion_tokens":4,"total_tokens":7,"cost_details":1}}"#);
    let clean = sanitize_and_spoof_response(
        &upstream, "chatcmpl-1", "m", "p", &Json::Unsigned(5), &mut None,
    );
    says(
        &clean,
        r#"{"id":"chatcmpl-1","model":"m","provider":"p","created":7,"object":"chat","system_fingerprint":"f",
            "choices":[{"index":0,"finish_reason":"stop",
                "message":{"role":"assistant","content":"Hi","reasoning_content":"r"}}],
            "usage":{"prompt_tokens":3,"completion_tokens":4,"total_tokens":7,"cost":5}}"#,
    );
    says(&sanitize_and_spoof_response(&Json::Null, "c", "m", "p", &Json::Null, &mut None), "{}");
    let (prompt, completion) = usage_tokens(&upstream).unwrap();
    assert!(matches!(prompt, Some(Json::Unsigned(3))));
    assert!(matches!(completion, Some(Json::Unsigned(4))));
    assert!(usage_tokens(&json("{}")).is_none());
}

#[test]
fn answers_are_unredacted() {
    let mut map = PiiMap::new();
    assert_eq!(map.redact("a@b.co"), "[EMAIL_1]");
    let mut unredactor = Some(StreamingUnredactor::new(Arc::new(map)));
    let first = sanitize_and_spoof_response(
        &json(r#"{"choices":[{"delta":{"content":"to [EMA"}}]}"#),
        "c", "m", "p", &Json::Null, &mut unredactor,
    );
    says(&first, r#"{"id":"c","model":"m","provider":"p","choices":[{"delta":{"content":"to "}}]}"#);
    let second = sanitize_and_spoof_response(
        &json(r#"{"choices":[{"delta":{"content":"IL_1]!"}}]}"#),
        "c", "m", "p", &Json::Null, &mut unredactor,
    );
    says(&second, r#"{"id":"c","model":"m","provider":"p","choices":[{"delta":{"content":"a@b.co!"}}]}"#);
}

#[test]
fn answers_are_encrypted_in_order() {
    let mut ratchet = StreamRatchet::new(&[1u8; 32], &[2u8; 32], "m");
    let answer = json(r#"{"id":"c","choices":[{"message":{"content":"a","reasoning_content":"b"}}]}"#);
    let sent = to_value(&encrypt_answer(&answer, &mut ratchet).unwrap());
    assert_eq!(ratchet.chunks(), 2);
    assert_eq!(sent["id"], "c");
    assert_ne!(sent["choices"][0]["message"]["content"], "a");
    assert_ne!(sent["choices"][0]["message"]["reasoning_content"], "b");
}

#[test]
fn answers_are_encrypted_with_what_was_drawn() {
    let ratchet = || StreamRatchet::new(&[1u8; 32], &[2u8; 32], "m");
    let given = json(r#"{"choices":[{"message":{"content":"C","reasoning_content":"R"}}]}"#);
    let clean = sanitize_and_spoof_response(&given, "c", "m", "p", &Json::Null, &mut None);
    let nonces = vec![Some([3u8; 12]), Some([4u8; 12])];

    // The reasoning goes first, under the first key, and the content under the next one.
    let mut used = ratchet();
    let sent = to_value(&encrypt_answer_with(&clean, &mut used, &nonces).unwrap());
    let mut other = ratchet();
    let reasoning = other.encrypt_chunk_with(b"R", &[3u8; 12]);
    let content = other.encrypt_chunk_with(b"C", &[4u8; 12]);
    assert_eq!(sent["choices"][0]["message"]["reasoning_content"], reasoning);
    assert_eq!(sent["choices"][0]["message"]["content"], content);
    assert_eq!(used.chunks(), 2);

    // Without a nonce for each text nothing comes out, and the ratchet stops at that text.
    let mut used = ratchet();
    assert!(encrypt_answer_with(&clean, &mut used, &vec![Some([3u8; 12])]).is_none());
    assert_eq!(used.chunks(), 1);
    let mut used = ratchet();
    assert!(encrypt_answer_with(&clean, &mut used, &vec![None, Some([3u8; 12])]).is_none());
    assert_eq!(used.chunks(), 0);
    let bare = json(r#"{"id":"c"}"#);
    assert!(encrypt_answer_with(&bare, &mut used, &vec![]).is_some());
}

#[test]
fn sealed_contents_are_put_in_place() {
    let said = |content: &str| Message { role: "user".to_string(), content: content.to_string() };
    let contents = |m: &Vec<Message>| m.iter().map(|m| m.content.clone()).collect::<Vec<String>>();
    let mut messages = vec![said("a"), said("b"), said("c")];
    let sealed = vec![Ok("x".to_string()), Err("no".to_string()), Ok("z".to_string())];
    assert_eq!(put_sealed(&mut messages, &sealed), Err("no".to_string()));
    assert_eq!(contents(&messages), ["x", "b", "c"]);
    let sealed = vec![Ok("1".to_string()), Ok("2".to_string()), Ok("3".to_string())];
    assert_eq!(put_sealed(&mut messages, &sealed), Ok(()));
    assert_eq!(contents(&messages), ["1", "2", "3"]);
    assert!(messages.iter().all(|m| m.role == "user"));
}

#[test]
fn broken_streams_are_told() {
    says(
        &tinfoil_stream_failure("gone"),
        r#"{"error":{"message":"Tinfoil stream error: gone","type":"service_unavailable","param":null,"code":"provider_unavailable"}}"#,
    );
}

#[test]
fn padded_events_have_round_lengths() {
    let line = pad_raw_sse("data: [DONE]");
    assert_eq!(line.len() % 256, 0);
    assert!(line.starts_with("data: [DONE]\n: XXX"));
    assert!(line.ends_with("X\n\n"));
    let plain = with_pad(json(r#"{"a":1}"#), "");
    let text = to_value(&plain).to_string();
    let padded = with_pad(plain, &sse_filler(text.len()));
    assert_eq!(sse_event(&to_value(&padded).to_string()).len() % 256, 0);
    let text = r#"{"pad":""}"#;
    assert_eq!((text.len() + body_filler(text.len()).len()) % 1024, 0);
    assert_eq!(body_filler(1024).len(), 1024);
}

#[test]
fn usage_is_told_to_those_who_ask() {
    let usage = json(r#"{"usage":{},"choices":[]}"#);
    assert!(!is_delivered(&usage, false));
    assert!(is_delivered(&usage, true));
    assert!(is_delivered(&json(r#"{"usage":{},"choices":[{}]}"#), false));
    assert!(is_delivered(&json(r#"{"choices":[]}"#), false));
}

// Enclaves of one provider

fn public_of(secret: [u8; 32]) -> [u8; 32] {
    x25519_dalek::PublicKey::from(&x25519_dalek::StaticSecret::from(secret)).to_bytes()
}

fn data() -> Line {
    Line::Data("…".to_string())
}

fn near(line: &Line, read: Result<Json, String>, passing: bool) -> NearStep {
    on_near_line(line, &read, &[3u8; 32], passing)
}

fn failed(step: NearStep) -> String {
    match step {
        NearStep::Fail(e) => e,
        _ => panic!("the stream is to fail"),
    }
}

#[test]
fn enclave_events_are_opened() {
    let sealed = v2_encrypt(b"hello", &public_of([3u8; 32])).unwrap();
    let text = format!(r#"{{"choices":[{{"delta":{{"content":"{}","reasoning_content":"short"}}}}]}}"#, sealed);
    match near(&data(), Ok(json(&text)), false) {
        NearStep::Event(j) => {
            says(&j, r#"{"choices":[{"delta":{"content":"hello","reasoning_content":"short"}}]}"#)
        }
        _ => panic!("an event is to be passed on"),
    }
    match near(&data(), Ok(json(&text)), true) {
        NearStep::Event(j) => says(&j, &text),
        _ => panic!("an event is to be passed on as it came"),
    }
    let other = text.replace(&sealed, &"00".repeat(60));
    assert_eq!(
        failed(near(&data(), Ok(json(&other)), false)),
        "Failed to decrypt stream content: Decryption failed"
    );
}

#[test]
fn enclave_streams_fail_with_their_reason() {
    assert!(matches!(near(&Line::Nothing, Ok(Json::Null), false), NearStep::Skip));
    assert!(matches!(near(&Line::Done, Ok(Json::Null), false), NearStep::Done));
    assert_eq!(
        failed(near(&data(), Err("bad".to_string()), false)),
        "Corrupt JSON in stream: bad"
    );
    assert_eq!(
        failed(near(&data(), Ok(json(r#"{"error":{"message":"busy"}}"#)), true)),
        "busy"
    );
    let bare = Line::Bare("{".to_string());
    assert_eq!(
        failed(near(&bare, Ok(json(r#"{"error":1}"#)), false)),
        "Corrupt or invalid response from downstream provider."
    );
    assert!(matches!(near(&bare, Ok(json("{}")), false), NearStep::Skip));
    assert_eq!(
        failed(near(&Line::Other("<html>".to_string()), Ok(Json::Null), false)),
        "Invalid stream protocol line: <html>"
    );
    says(
        &stream_failure("near-ai", "x"),
        r#"{"error":{"message":"Downstream provider 'near-ai' is temporarily unavailable. Error: x",
            "type":"service_unavailable","param":null,"code":"provider_unavailable"}}"#,
    );
    says(
        &read_failure("near-ai", "x"),
        r#"{"error":{"message":"Downstream provider 'near-ai' is temporarily unavailable. Stream read error: x",
            "type":"service_unavailable","param":null,"code":"provider_unavailable"}}"#,
    );
}

#[test]
fn enclave_answers_are_opened() {
    let sealed = v2_encrypt(b"hello", &public_of([3u8; 32])).unwrap();
    let text = format!(r#"{{"choices":[{{"message":{{"content":"{}"}}}}]}}"#, sealed);
    let opened = read_near_answer(&json(&text), &[3u8; 32], false).unwrap();
    says(&opened, r#"{"choices":[{"message":{"content":"hello"}}]}"#);
    says(&read_near_answer(&json(&text), &[3u8; 32], true).unwrap(), &text);
    assert_eq!(
        read_near_answer(&json(r#"{"error":{"message":"full"}}"#), &[3u8; 32], false).err().unwrap(),
        "full"
    );
    assert_eq!(
        read_near_answer(&json(r#"{"error":{}}"#), &[3u8; 32], false).err().unwrap(),
        "Upstream error response"
    );
}

#[test]
fn prompts_are_sealed_to_the_enclave() {
    let mut messages = vec![
        Message { role: "system".to_string(), content: "Be kind.".to_string() },
        Message { role: "user".to_string(), content: "Hi".to_string() },
    ];
    encrypt_messages(&mut messages, &public_of([3u8; 32])).unwrap();
    assert_eq!(messages[0].role, "system");
    assert_eq!(v2_decrypt(&messages[0].content, &[3u8; 32]).unwrap(), "Be kind.");
    assert_eq!(v2_decrypt(&messages[1].content, &[3u8; 32]).unwrap(), "Hi");
    assert!(skips_decryption("ab", &[0u8; 32]));
    assert!(!skips_decryption("", &[0u8; 32]));
    assert!(!skips_decryption("ab", &[1u8; 32]));
}

// Instances of another

#[test]
fn nothing_is_read_before_its_key() {
    let mut key: Option<StreamKey> = None;
    let event = Some(json(r#"{"e2e":"AAAA"}"#));
    match on_stream_line(&mut key, &[], &data(), &event) {
        StreamStep::Fail(e) => assert_eq!(e, "data: {\"error\":\"e2e chunk before init\"}\n\n"),
        _ => panic!("the stream is to fail"),
    }
    match on_stream_line(&mut key, &[], &data(), &Some(json(r#"{"e2e_init":"?"}"#))) {
        StreamStep::Fail(e) => assert_eq!(
            e,
            "data: {\"error\":\"stream init failed: Invalid base64 in e2e_init ML-KEM ciphertext\"}\n\n"
        ),
        _ => panic!("the stream is to fail"),
    }
    assert!(key.is_none());
}

#[test]
fn instance_streams_are_read() {
    let mut key = Some(StreamKey { bytes: [9u8; 32] });
    let sealed = chacha_encrypt_with(&[9u8; 32], &[1u8; 12], b"data: {\"x\":1}\n\n").unwrap();
    let chunk = base64ct::Base64::encode_string(&sealed);
    let event = Some(json(&format!(r#"{{"e2e":"{}"}}"#, chunk)));
    match on_stream_line(&mut key, &[], &data(), &event) {
        StreamStep::Event(t) => assert_eq!(t, "{\"x\":1}"),
        _ => panic!("an event is to be read"),
    }
    let spoilt = Some(json(r#"{"e2e":"AAAA"}"#));
    assert!(matches!(on_stream_line(&mut key, &[], &data(), &spoilt), StreamStep::Skip));
    let usage = Some(json(r#"{"usage":{}}"#));
    assert!(matches!(on_stream_line(&mut key, &[], &data(), &usage), StreamStep::Usage));
    assert!(matches!(on_stream_line(&mut key, &[], &Line::Done, &None), StreamStep::Done));
    assert!(matches!(on_stream_line(&mut key, &[], &Line::Nothing, &None), StreamStep::Skip));
    assert_eq!(read_event_text(" {} "), "{}");
    assert!(stream_read_failure("gone").contains("gone"));
}

// The relay of encrypted envelopes

#[test]
fn cuts_do_not_matter() {
    let text = "data: {\"a\":1}\n\ndata: [DO\u{e4}NE]\nrest";
    let whole = {
        let mut b = LineBuffer::new();
        let mut lines = b.push_text(text);
        lines.extend(b.finish());
        lines
    };
    assert_eq!(whole, vec!["data: {\"a\":1}", "", "data: [DO\u{e4}NE]", "rest"]);
    let chars: Vec<char> = text.chars().collect();
    for size in 1..6 {
        let mut b = LineBuffer::new();
        let mut lines = Vec::new();
        for piece in chars.chunks(size) {
            let piece: String = piece.iter().collect();
            lines.extend(b.push(piece.as_bytes()));
        }
        lines.extend(b.finish());
        assert_eq!(lines, whole);
    }
    assert!(LineBuffer::new().finish().is_none());
}

#[test]
fn relayed_lines_are_padded() {
    assert_eq!(relay("", &None), "\n");
    assert_eq!(relay(": hi", &None), ": hi\n");
    let done = relay("data: [DONE]", &None);
    assert!(done.starts_with("data: [DONE]\n: X"));
    assert!(done.ends_with("X\n"));
    let padded = Some("data: {\"pad\":\"X\"}\n\n".to_string());
    assert_eq!(relay("data: {}", &padded), "data: {\"pad\":\"X\"}\n");
    assert_eq!(event_content("data: {}").unwrap(), "{}");
    assert!(event_content("data: [DONE]").is_none());
    assert!(event_content("event: x").is_none());
    assert_eq!(detect_model("tinfoil-unknown", &json(r#"{"model":"m"}"#)), "m");
    assert_eq!(detect_model("known", &json(r#"{"model":"m"}"#)), "known");
    assert_eq!(detect_model("tinfoil-unknown", &json("{}")), "tinfoil-unknown");
}

#[test]
fn no_messages_are_sealed_without_fail() {
    let mut messages = Vec::new();
    assert_eq!(encrypt_messages(&mut messages, &public_of([3u8; 32])), Ok(()));
    assert!(messages.is_empty());
}
