use std::sync::Arc;

use deadrouter::redaction::Hidden;
use deadrouter::redaction::PiiMap;
use deadrouter::redaction::StreamingUnredactor;

#[test]
fn test_email_redaction() {
    let mut pii_map = PiiMap::new();
    let text = "Contact us at admin@example.com or support@test.co.uk!";
    let redacted = pii_map.redact(text);
    assert_eq!(redacted, "Contact us at [EMAIL_1] or [EMAIL_2]!");
    assert_eq!(pii_map.unredact(&redacted), text);
}

#[test]
fn test_ip_redaction() {
    let mut pii_map = PiiMap::new();
    let text = "IPv4: 192.168.1.1, IPv6: 2001:0db8:85a3::8a2e:0370:7334 and ::1";
    let redacted = pii_map.redact(text);
    assert_eq!(redacted, "IPv4: [IP_ADDRESS_1], IPv6: [IP_ADDRESS_2] and [IP_ADDRESS_3]");
    assert_eq!(pii_map.unredact(&redacted), text);

    let mut pii_map2 = PiiMap::new();
    let false_positives = "std::string and http://example.com";
    let redacted2 = pii_map2.redact(false_positives);
    assert_eq!(redacted2, false_positives);
}

#[test]
fn test_phone_redaction() {
    let cases = vec![
        ("Call +1 202 800 9999 now", "Call [PHONE_1] now"),
        ("Or (202) 800-9999", "Or [PHONE_1]"),
        ("What about +44 20 7946 0958?", "What about [PHONE_1]?"),
        ("Unformatted 2028009999 is here", "Unformatted [PHONE_1] is here"),
        ("Extension 202-800-9999 ext 123", "Extension [PHONE_1]"),
        ("E164 +12028009999 format", "E164 [PHONE_1] format"),
        ("Spaced 202 800 9999 format", "Spaced [PHONE_1] format"),
    ];

    for (original, expected) in cases {
        let mut map = PiiMap::new();
        assert_eq!(map.redact(original), expected);
        assert_eq!(map.unredact(expected), original);
    }
}

#[test]
fn test_cc_redaction() {
    let mut pii_map = PiiMap::new();
    let text = "My card is 4111 1111 1111 1111 and 1234-5678-9012-3456.";
    let redacted = pii_map.redact(text);
    assert_eq!(redacted, "My card is [CREDIT_CARD_1] and [CREDIT_CARD_2].");
    assert_eq!(pii_map.unredact(&redacted), text);
}

#[test]
fn test_ssn_redaction() {
    let mut pii_map = PiiMap::new();
    let text = "My SSN is 123-45-6789 or 987 65 4321.";
    let redacted = pii_map.redact(text);
    assert_eq!(redacted, "My SSN is [SSN_1] or [SSN_2].");
    assert_eq!(pii_map.unredact(&redacted), text);
}

#[test]
fn each_find_has_its_own_tag() {
    let mut map = PiiMap::new();
    let redacted = map.redact("a@b.co, c@d.co, a@b.co");
    assert_eq!(redacted, "[EMAIL_1], [EMAIL_2], [EMAIL_3]");
    assert_eq!(map.get("[EMAIL_2]").map(|s| s.as_str()), Some("c@d.co"));
    assert_eq!(map.get("[EMAIL_3]").map(|s| s.as_str()), Some("a@b.co"));
    assert!(map.get("[EMAIL_4]").is_none());
    // The next text begins again with the first tag.
    assert_eq!(map.redact("again c@d.co"), "again [EMAIL_1]");
    assert_eq!(map.unredact("[EMAIL_1]"), "c@d.co");
}

#[test]
fn streams_undo_redaction_however_they_are_cut() {
    let mut map = PiiMap::new();
    let text = "Write to admin@example.com [now] or call +1 202 800 9999.";
    let redacted = map.redact(text);
    let map = Arc::new(map);
    let chars: Vec<char> = redacted.chars().collect();
    for size in [1usize, 2, 3, 7, 100] {
        let mut stream = StreamingUnredactor::new(map.clone());
        let mut out = String::new();
        for piece in chars.chunks(size) {
            let piece: String = piece.iter().collect();
            out.push_str(&stream.process_chunk(&piece));
        }
        out.push_str(&stream.flush());
        assert_eq!(out, text);
    }
}

#[test]
fn a_wiped_map_knows_nothing() {
    let mut map = PiiMap::new();
    let redacted = map.redact("a@b.co");
    map.zeroize();
    assert!(map.get("[EMAIL_1]").is_none());
    assert_eq!(map.unredact(&redacted), redacted);
}

#[test]
fn an_empty_tag_stands_between_all_characters() {
    let mut map = PiiMap::new();
    map.map.push((String::new(), Hidden { text: "-".to_string() }));
    assert_eq!(map.unredact("ab"), "-a-b-");
    assert_eq!(map.unredact(""), "-");
}

#[test]
fn ranges_are_hidden_behind_numbered_tags() {
    let mut map = PiiMap::new();
    assert_eq!(map.hide_spans("a\u{e9}bcd", &vec![(0, 1), (3, 5)], "SSN"), "[SSN_1]\u{e9}[SSN_2]d");
    assert_eq!(map.get("[SSN_1]").unwrap(), "a");
    assert_eq!(map.get("[SSN_2]").unwrap(), "bc");
}

#[test]
fn streams_replace_tags_wherever_they_stand() {
    let mut map = PiiMap::new();
    map.redact("a@b.co c@d.co");
    let mut stream = StreamingUnredactor::new(Arc::new(map));
    let mut out = stream.process_chunk("x[EMAIL_2][EM");
    out.push_str(&stream.process_chunk("AIL_1] [[EMAIL_1] [no] [EMAIL_"));
    assert_eq!(out, "xc@d.coa@b.co [a@b.co [no] ");
    assert_eq!(stream.flush(), "[EMAIL_");
    assert_eq!(stream.flush(), "");
}

#[test]
fn brackets_in_a_text_do_not_disturb_its_tags() {
    for text in ["[see a@b.co]", "[[x]] 192.168.1.1 [", "[EMAIL_x@y.co] or (+1 202 800 9999]"] {
        let mut map = PiiMap::new();
        let redacted = map.redact(text);
        assert_ne!(redacted, text);
        assert_eq!(map.unredact(&redacted), text);
        let mut stream = StreamingUnredactor::new(Arc::new(map));
        let mut out = stream.process_chunk(&redacted);
        out.push_str(&stream.flush());
        assert_eq!(out, text);
    }
}
