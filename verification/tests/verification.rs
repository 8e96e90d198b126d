use base64::Engine;
use sonnun::canonical::{append_event, encode};
use sonnun::crypto_utils::{generate_keypair, hash_text, CryptoError};
use sonnun::database::Database;
use sonnun::envelope::SignedEnvelope;
use sonnun::event::ProvenanceEvent;
use sonnun::json::{parse_json, JsonValue};
use sonnun::manifest::{build_manifest, ManifestData, Percentage};
use sonnun::scan::extract_envelope;
use sonnun::verification::{
    decode_event, decode_manifest, validate_manifest_structure, verify_document, verify_envelope,
    verify_envelope_text, Field, VerifyError,
};

const SEED: [u8; 32] = [7u8; 32];

fn event(timestamp: &str, event_type: &str, source: &str, span_length: usize) -> ProvenanceEvent {
    ProvenanceEvent {
        timestamp: timestamp.to_string(),
        event_type: event_type.to_string(),
        text_hash: hash_text(source),
        source: source.to_string(),
        span_length,
    }
}

fn sample_manifest() -> ManifestData {
    let mut db = Database::new();
    db.insert_event(event("2024-01-01T00:00:00Z", "human", "alice", 60)).unwrap();
    db.insert_event(event("2024-01-02T00:00:00Z", "ai", "gpt-4", 30)).unwrap();
    db.insert_event(event("2024-01-03T00:00:00Z", "cited", "wikipedia", 10)).unwrap();
    build_manifest(&db, 50)
}

fn page(element: &[u8]) -> String {
    format!(
        "<!doctype html>\n<html><head><title>t</title></head>\n<body><p>text</p>\n{}\n</body></html>\n",
        String::from_utf8(element.to_vec()).unwrap()
    )
}

fn text(bytes: Vec<u8>) -> String {
    String::from_utf8(bytes).unwrap()
}

#[test]
fn test_provenance_event_serialization() {
    let event = ProvenanceEvent {
        timestamp: "2023-01-01T00:00:00Z".to_string(),
        event_type: "human".to_string(),
        text_hash: "test_hash".to_string(),
        source: "user".to_string(),
        span_length: 10,
    };

    let mut json = Vec::new();
    append_event(&mut json, &event);
    assert!(!json.is_empty());

    let parsed = parse_json(&json);
    assert!(parsed.is_some());
    let deserialized = decode_event(&parsed.unwrap());
    assert!(deserialized.is_some());

    let deserialized_event = deserialized.unwrap();
    assert_eq!(event.timestamp, deserialized_event.timestamp);
    assert_eq!(event.event_type, deserialized_event.event_type);
    assert_eq!(event, deserialized_event);
}

#[test]
fn canonical_encoding_of_a_known_manifest() {
    let manifest = ManifestData {
        human_percentage: Percentage::of(2, 3),
        ai_percentage: Percentage::of(1, 3),
        cited_percentage: Percentage::zero(),
        total_characters: 3,
        events: vec![
            ProvenanceEvent {
                timestamp: "2024-01-02T00:00:00Z".to_string(),
                event_type: "ai".to_string(),
                text_hash: "ab".to_string(),
                source: "gpt-4".to_string(),
                span_length: 1,
            },
            ProvenanceEvent {
                timestamp: "2024-01-01T00:00:00Z".to_string(),
                event_type: "human".to_string(),
                text_hash: "cd".to_string(),
                source: "al\"ice".to_string(),
                span_length: 20,
            },
        ],
    };
    let expected = concat_all(&[
        "{\"human_percentage\":66.666666,\"ai_percentage\":33.333333,",
        "\"cited_percentage\":0.000000,\"total_characters\":3,\"events\":[",
        "{\"timestamp\":\"2024-01-02T00:00:00Z\",\"event_type\":\"ai\",\"text_hash\":\"ab\",",
        "\"source\":\"gpt-4\",\"span_length\":1},",
        "{\"timestamp\":\"2024-01-01T00:00:00Z\",\"event_type\":\"human\",\"text_hash\":\"cd\",",
        "\"source\":\"al\\\"ice\",\"span_length\":20}]}",
    ]);
    assert_eq!(text(encode(&manifest)), expected);
}

fn concat_all(parts: &[&str]) -> String {
    let mut all = String::new();
    for part in parts {
        all.push_str(part);
    }
    all
}

#[test]
fn canonical_encoding_of_the_empty_manifest() {
    let manifest = Database::new().generate_manifest();
    assert_eq!(
        text(encode(&manifest)),
        "{\"human_percentage\":0.000000,\"ai_percentage\":0.000000,\"cited_percentage\":0.000000,\"total_characters\":0,\"events\":[]}"
    );
}

#[test]
fn equal_manifests_encode_alike_whatever_the_order_of_construction() {
    let first = sample_manifest();
    let events = first.events.clone();
    let second = ManifestData {
        events,
        total_characters: 100,
        cited_percentage: Percentage::from_millionths(10_000_000).unwrap(),
        ai_percentage: Percentage::from_millionths(30_000_000).unwrap(),
        human_percentage: Percentage::from_millionths(60_000_000).unwrap(),
    };
    assert_eq!(first, second);
    assert_eq!(encode(&first), encode(&second));
    assert_eq!(encode(&first), encode(&first.clone()));
}

#[test]
fn strings_are_escaped_and_read_back() {
    let source = "q\"b\\c\n\t\u{1}<\u{7f}é✓/";
    let tricky = ProvenanceEvent {
        timestamp: "t".to_string(),
        event_type: "human".to_string(),
        text_hash: "h".to_string(),
        source: source.to_string(),
        span_length: usize::MAX,
    };
    let mut json = Vec::new();
    append_event(&mut json, &tricky);
    let json_text = text(json.clone());
    assert!(json_text.contains("\"source\":\"q\\\"b\\\\c\\u000a\\u0009\\u0001\\u003c\\u007fé✓/\""));
    assert!(!json_text.contains('<'));
    assert!(json_text.ends_with(&format!("\"span_length\":{}}}", usize::MAX)));
    let back = decode_event(&parse_json(&json).unwrap()).unwrap();
    assert_eq!(back, tricky);
}

#[test]
fn round_trip_through_a_document() {
    let manifest = sample_manifest();
    let envelope = SignedEnvelope::seal(manifest.clone(), &SEED).unwrap();
    let document = page(&envelope.embed());

    let result = verify_document(&document, None).unwrap();
    assert!(result.valid);
    assert_eq!(result.manifest, manifest);
    assert_eq!(result.public_key, envelope.public_key);
    assert_eq!(result.manifest.human_percentage.millionths(), 60_000_000);
    assert_eq!(result.manifest.total_characters, 100);
    assert_eq!(result.manifest.events.len(), 3);

    let expected = envelope.public_key.clone();
    let result = verify_document(&document, Some(&expected)).unwrap();
    assert!(result.valid);
}

#[test]
fn round_trip_with_a_generated_key() {
    let (private_key, public_key) = generate_keypair().unwrap();
    let seed = base64::engine::general_purpose::STANDARD.decode(private_key).unwrap();
    let envelope = SignedEnvelope::seal(sample_manifest(), &seed).unwrap();
    assert_eq!(envelope.public_key, public_key);
    let result = verify_document(&page(&envelope.embed()), Some(&public_key)).unwrap();
    assert!(result.valid);
}

#[test]
fn sealing_needs_a_key_of_the_right_length() {
    assert_eq!(
        SignedEnvelope::seal(sample_manifest(), &SEED[..31]),
        Err(CryptoError::InvalidPrivateKeyLength)
    );
}

#[test]
fn tampering_with_total_characters_invalidates() {
    let envelope = SignedEnvelope::seal(sample_manifest(), &SEED).unwrap();
    let document = page(&envelope.embed());
    assert!(document.contains("\"total_characters\":100,"));
    let tampered = document.replace("\"total_characters\":100,", "\"total_characters\":900,");
    let result = verify_document(&tampered, None).unwrap();
    assert!(!result.valid);
    assert_eq!(result.manifest.total_characters, 900);
    assert_eq!(result.public_key, envelope.public_key);
}

#[test]
fn tampering_with_a_share_or_an_event_invalidates() {
    let envelope = SignedEnvelope::seal(sample_manifest(), &SEED).unwrap();
    let document = page(&envelope.embed());
    let tampered = document.replace("\"human_percentage\":60.000000", "\"human_percentage\":90.000000");
    assert!(!verify_document(&tampered, None).unwrap().valid);
    let tampered = document.replace("gpt-4", "gpt-5");
    assert!(!verify_document(&tampered, None).unwrap().valid);
}

#[test]
fn another_way_to_write_the_same_numbers_stays_valid() {
    let envelope = SignedEnvelope::seal(sample_manifest(), &SEED).unwrap();
    let document = page(&envelope.embed());
    let rewritten = document
        .replace("\"human_percentage\":60.000000", "\"human_percentage\": 60.0")
        .replace("\"ai_percentage\":30.000000", "\"ai_percentage\" : 30")
        .replace(",\"signature\"", " ,\n \"signature\"");
    assert_ne!(rewritten, document);
    assert!(verify_document(&rewritten, None).unwrap().valid);
}

#[test]
fn missing_signature_is_a_structural_error() {
    let envelope = SignedEnvelope::seal(sample_manifest(), &SEED).unwrap();
    let json = text(envelope.to_json());
    let cut = json.find(",\"signature\":").unwrap();
    let end = json.find(",\"public_key\":").unwrap();
    let without = format!("{}{}", &json[..cut], &json[end..]);
    let parsed = parse_json(without.as_bytes()).unwrap();
    assert_eq!(
        validate_manifest_structure(&parsed),
        Err(VerifyError::InvalidStructure(Field::Signature))
    );
    assert_eq!(
        verify_envelope(&parsed, None),
        Err(VerifyError::InvalidStructure(Field::Signature))
    );
    let document = format!(
        "<script id='sonnun-manifest' type='application/json'>{}</script>",
        without
    );
    let error = verify_document(&document, None).unwrap_err();
    assert_eq!(error, VerifyError::InvalidStructure(Field::Signature));
    assert_eq!(
        error.message(),
        "Structural validation: missing or malformed 'signature' field"
    );
}

fn object(members: Vec<(&str, JsonValue)>) -> JsonValue {
    JsonValue::Object(members.into_iter().map(|(k, v)| (k.to_string(), v)).collect())
}

fn number(text: &str) -> JsonValue {
    JsonValue::Number(text.to_string())
}

fn full_manifest() -> Vec<(&'static str, JsonValue)> {
    vec![
        ("human_percentage", number("60.5")),
        ("ai_percentage", number("39.5")),
        ("cited_percentage", number("0")),
        ("total_characters", number("200")),
        ("events", JsonValue::Array(vec![])),
    ]
}

#[test]
fn each_missing_member_is_named_in_order() {
    assert_eq!(
        validate_manifest_structure(&JsonValue::Array(vec![])),
        Err(VerifyError::InvalidStructure(Field::Envelope))
    );
    assert_eq!(
        validate_manifest_structure(&object(vec![])),
        Err(VerifyError::InvalidStructure(Field::Manifest))
    );
    let text_value = || JsonValue::Text("x".to_string());
    assert_eq!(
        validate_manifest_structure(&object(vec![("manifest", object(vec![]))])),
        Err(VerifyError::InvalidStructure(Field::Signature))
    );
    assert_eq!(
        validate_manifest_structure(&object(vec![
            ("manifest", object(vec![])),
            ("signature", text_value())
        ])),
        Err(VerifyError::InvalidStructure(Field::PublicKey))
    );
    assert_eq!(
        validate_manifest_structure(&object(vec![
            ("manifest", JsonValue::Null),
            ("signature", text_value()),
            ("public_key", text_value())
        ])),
        Err(VerifyError::InvalidStructure(Field::Manifest))
    );
    let fields = [
        Field::HumanPercentage,
        Field::AiPercentage,
        Field::CitedPercentage,
        Field::TotalCharacters,
    ];
    for (i, field) in fields.iter().enumerate() {
        let members: Vec<(&str, JsonValue)> = full_manifest().into_iter().take(i).collect();
        let envelope = object(vec![
            ("manifest", object(members)),
            ("signature", text_value()),
            ("public_key", text_value()),
        ]);
        assert_eq!(
            validate_manifest_structure(&envelope),
            Err(VerifyError::InvalidStructure(*field))
        );
    }
    let envelope = object(vec![
        ("manifest", object(full_manifest())),
        ("signature", text_value()),
        ("public_key", text_value()),
    ]);
    assert_eq!(validate_manifest_structure(&envelope), Ok(()));
}

#[test]
fn manifest_members_are_decoded_with_their_types() {
    let decoded = decode_manifest(&object(full_manifest())).unwrap();
    assert_eq!(decoded.human_percentage.millionths(), 60_500_000);
    assert_eq!(decoded.ai_percentage.millionths(), 39_500_000);
    assert_eq!(decoded.cited_percentage.millionths(), 0);
    assert_eq!(decoded.total_characters, 200);
    assert!(decoded.events.is_empty());

    let with = |key: &'static str, value: JsonValue| {
        let members: Vec<(&str, JsonValue)> = full_manifest()
            .into_iter()
            .map(|(k, v)| if k == key { (k, JsonValue::Null) } else { (k, v) })
            .map(|(k, v)| if k == key { (k, clone_value(&value)) } else { (k, v) })
            .collect();
        decode_manifest(&object(members))
    };
    let bad = |field| Err(VerifyError::InvalidStructure(field));
    assert_eq!(with("human_percentage", number("100.000001")), bad(Field::HumanPercentage));
    assert_eq!(with("human_percentage", number("-1")), bad(Field::HumanPercentage));
    assert_eq!(with("human_percentage", number("1e1")), bad(Field::HumanPercentage));
    assert_eq!(with("human_percentage", number("1.0000000")), bad(Field::HumanPercentage));
    assert_eq!(with("human_percentage", JsonValue::Text("60".to_string())), bad(Field::HumanPercentage));
    assert_eq!(with("ai_percentage", JsonValue::Bool(true)), bad(Field::AiPercentage));
    assert_eq!(with("cited_percentage", number("101")), bad(Field::CitedPercentage));
    assert_eq!(with("total_characters", number("1.5")), bad(Field::TotalCharacters));
    assert_eq!(
        with("total_characters", number("340282366920938463463374607431768211456")),
        bad(Field::TotalCharacters)
    );
    assert_eq!(with("events", JsonValue::Null), bad(Field::Events));
    assert_eq!(with("events", JsonValue::Array(vec![object(vec![])])), bad(Field::Events));
    assert_eq!(
        with("human_percentage", number("100.000000")).unwrap().human_percentage.millionths(),
        100_000_000
    );
    assert_eq!(
        with("human_percentage", number("0.000001")).unwrap().human_percentage.millionths(),
        1
    );
}

fn clone_value(value: &JsonValue) -> JsonValue {
    match value {
        JsonValue::Null => JsonValue::Null,
        JsonValue::Bool(b) => JsonValue::Bool(*b),
        JsonValue::Number(n) => JsonValue::Number(n.clone()),
        JsonValue::Text(t) => JsonValue::Text(t.clone()),
        JsonValue::Array(items) => JsonValue::Array(items.iter().map(clone_value).collect()),
        JsonValue::Object(members) => JsonValue::Object(
            members.iter().map(|(k, v)| (k.clone(), clone_value(v))).collect(),
        ),
    }
}

#[test]
fn parse_json_copies_every_kind_of_value() {
    let parsed = parse_json(b" {\"a\": [1, 2.50, -3e+2, true, null, \"x\\ny\"], \"b\": {}} ").unwrap();
    assert_eq!(
        parsed,
        object(vec![
            (
                "a",
                JsonValue::Array(vec![
                    number("1"),
                    number("2.50"),
                    number("-3e+2"),
                    JsonValue::Bool(true),
                    JsonValue::Null,
                    JsonValue::Text("x\ny".to_string()),
                ])
            ),
            ("b", object(vec![])),
        ])
    );
    assert_eq!(parsed.get("b"), Some(&object(vec![])));
    assert_eq!(parsed.get("c"), None);
    assert_eq!(parse_json(b"{\"a\": }"), None);
    assert_eq!(parse_json(b""), None);
    assert_eq!(parse_json(b"1 2"), None);
}

#[test]
fn a_document_without_marker_is_not_found() {
    assert_eq!(verify_document("", None), Err(VerifyError::NotFound));
    assert_eq!(verify_document("<html></html>", None), Err(VerifyError::NotFound));
    assert_eq!(
        verify_document("<script type=\"application/json\">{}</script>", None),
        Err(VerifyError::NotFound)
    );
    assert_eq!(
        verify_document("<script type=\"application/json\" id=\"other\">{}</script>", None),
        Err(VerifyError::NotFound)
    );
    assert_eq!(
        verify_document("<script type=\"application/json\"id=\"sonnun-manifest\">{}</script>", None),
        Err(VerifyError::NotFound)
    );
    assert_eq!(
        VerifyError::NotFound.message(),
        "Extraction: no Sonnun manifest found in document"
    );
}

#[test]
fn a_marker_with_bad_content_is_malformed() {
    let open = "<script type=\"application/json\" id=\"sonnun-manifest\">";
    assert_eq!(
        verify_document(&format!("{}not json</script>", open), None),
        Err(VerifyError::Malformed)
    );
    assert_eq!(
        verify_document(&format!("{}</script>", open), None),
        Err(VerifyError::Malformed)
    );
    assert_eq!(
        verify_document(&format!("{}{{\"manifest\":1}}", open), None),
        Err(VerifyError::Malformed)
    );
    assert_eq!(verify_envelope_text(b"[1,", None), Err(VerifyError::Malformed));
    assert_eq!(VerifyError::Malformed.message(), "Extraction: invalid manifest JSON");
}

#[test]
fn the_scan_tolerates_order_quotes_and_white_space() {
    let variants = [
        "<script type=\"application/json\" id=\"sonnun-manifest\">",
        "<script id=\"sonnun-manifest\" type=\"application/json\">",
        "<script\n\ttype = 'application/json'\r\n  id= \"sonnun-manifest\"  >",
        "<script data-x=\"1\" id='sonnun-manifest' nonce=\"n\" type='application/json'>",
    ];
    for open in variants {
        let document = format!("<p><script>var a = 1;</script>{} \n {{\"a\": 1}}\t\n</script></p>", open);
        assert_eq!(
            extract_envelope(document.as_bytes()),
            Ok(b"{\"a\": 1}".to_vec()),
            "{}",
            open
        );
    }
    let first_wins = "<script id='sonnun-manifest' type='application/json'>1</script>\
                      <script id='sonnun-manifest' type='application/json'>2</script>";
    assert_eq!(extract_envelope(first_wins.as_bytes()), Ok(b"1".to_vec()));
    assert_eq!(
        extract_envelope(b"<script id='sonnun-manifest' type='application/json'>  </script>"),
        Ok(Vec::new())
    );
    assert_eq!(
        extract_envelope(b"<script id='sonnun-manifest' type='application/json'>{}"),
        Err(VerifyError::Malformed)
    );
    assert_eq!(extract_envelope(b"<script id='sonnun-manifest'"), Err(VerifyError::NotFound));
}

#[test]
fn an_unexpected_key_is_a_mismatch_not_an_invalid_signature() {
    let envelope = SignedEnvelope::seal(sample_manifest(), &SEED).unwrap();
    let document = page(&envelope.embed());
    let (_, other) = generate_keypair().unwrap();
    let error = verify_document(&document, Some(&other)).unwrap_err();
    assert_eq!(error, VerifyError::KeyMismatch);
    assert_eq!(
        error.message(),
        "Key match: provided public key does not match document key"
    );
}

#[test]
fn a_valid_envelope_under_another_key_is_invalid() {
    let envelope = SignedEnvelope::seal(sample_manifest(), &SEED).unwrap();
    let other = SignedEnvelope::seal(sample_manifest(), &[9u8; 32]).unwrap();
    let swapped = SignedEnvelope {
        manifest: envelope.manifest.clone(),
        signature: envelope.signature.clone(),
        public_key: other.public_key.clone(),
    };
    let result = verify_document(&page(&swapped.embed()), None).unwrap();
    assert!(!result.valid);
    assert_eq!(result.public_key, other.public_key);
}

#[test]
fn malformed_key_material_has_its_errors() {
    let envelope = SignedEnvelope::seal(sample_manifest(), &SEED).unwrap();
    let with = |signature: &str, public_key: &str| {
        let changed = SignedEnvelope {
            manifest: envelope.manifest.clone(),
            signature: signature.to_string(),
            public_key: public_key.to_string(),
        };
        verify_document(&page(&changed.embed()), None)
    };
    let crypto = |e| Err(VerifyError::Crypto(e));
    assert_eq!(with(&envelope.signature, "@@"), crypto(CryptoError::InvalidPublicKeyEncoding));
    assert_eq!(with("@@", &envelope.public_key), crypto(CryptoError::InvalidSignatureEncoding));
    assert_eq!(with(&envelope.signature, "AAAA"), crypto(CryptoError::InvalidPublicKeyLength));
    assert_eq!(with("AAAA", &envelope.public_key), crypto(CryptoError::InvalidSignatureLength));
    assert_eq!(
        with(&envelope.signature, "AgAAAAAAAAAAAAAAAAAAAAAAAAAAAAAAAAAAAAAAAAA="),
        crypto(CryptoError::InvalidPublicKeyFormat)
    );
    assert_eq!(
        VerifyError::Crypto(CryptoError::InvalidSignatureLength).message(),
        "Decoding: Invalid signature length"
    );
    assert!(with(&envelope.signature, &envelope.public_key).unwrap().valid);
}

#[test]
fn signature_and_key_must_be_strings() {
    let envelope = object(vec![
        ("manifest", object(full_manifest())),
        ("signature", number("1")),
        ("public_key", JsonValue::Text("x".to_string())),
    ]);
    assert_eq!(
        verify_envelope(&envelope, None),
        Err(VerifyError::InvalidStructure(Field::Signature))
    );
    let envelope = object(vec![
        ("manifest", object(full_manifest())),
        ("signature", JsonValue::Text("x".to_string())),
        ("public_key", JsonValue::Null),
    ]);
    assert_eq!(
        verify_envelope(&envelope, None),
        Err(VerifyError::InvalidStructure(Field::PublicKey))
    );
    assert_eq!(Field::PublicKey.name(), "public_key");
    assert_eq!(Field::Envelope.name(), "envelope");
}

#[test]
fn the_parser_reads_the_text_of_an_envelope_as_the_value_it_stands_for() {
    let manifest = ManifestData {
        human_percentage: Percentage::of(1, 3),
        ai_percentage: Percentage::of(2, 3),
        cited_percentage: Percentage::zero(),
        total_characters: 3,
        events: vec![ProvenanceEvent {
            timestamp: "2024-01-01T00:00:00Z".to_string(),
            event_type: "human".to_string(),
            text_hash: "ab".to_string(),
            source: "a<b>\"c\\\u{7}é".to_string(),
            span_length: 3,
        }],
    };
    let envelope = SignedEnvelope::seal(manifest, &SEED).unwrap();
    let text_of = |s: &str| JsonValue::Text(s.to_string());
    let expected = object(vec![
        (
            "manifest",
            object(vec![
                ("ai_percentage", number("66.666666")),
                ("cited_percentage", number("0.000000")),
                (
                    "events",
                    JsonValue::Array(vec![object(vec![
                        ("event_type", text_of("human")),
                        ("source", text_of("a<b>\"c\\\u{7}é")),
                        ("span_length", number("3")),
                        ("text_hash", text_of("ab")),
                        ("timestamp", text_of("2024-01-01T00:00:00Z")),
                    ])]),
                ),
                ("human_percentage", number("33.333333")),
                ("total_characters", number("3")),
            ]),
        ),
        ("public_key", text_of(&envelope.public_key)),
        ("signature", text_of(&envelope.signature)),
    ]);
    let parsed = parse_json(&envelope.to_json()).unwrap();
    assert_eq!(parsed, expected);
    assert_eq!(
        extract_envelope(&envelope.embed()),
        Ok(envelope.to_json())
    );
    assert!(!envelope.to_json().contains(&b'<'));
    assert!(verify_envelope(&expected, None).unwrap().valid);
}

#[test]
fn every_share_and_count_survives_the_way_through_text() {
    let mut value: u32 = 0;
    while value <= 100_000_000 {
        let manifest = ManifestData {
            human_percentage: Percentage::from_millionths(value).unwrap(),
            ai_percentage: Percentage::from_millionths(100_000_000 - value).unwrap(),
            cited_percentage: Percentage::zero(),
            total_characters: (value as usize) * 7919,
            events: vec![event("2024-01-01T00:00:00Z", "ai", "model", value as usize)],
        };
        let text = encode(&manifest);
        let back = decode_manifest(&parse_json(&text).unwrap()).unwrap();
        assert_eq!(back, manifest);
        assert_eq!(encode(&back), text);
        value += 999_983;
    }
}

#[test]
fn different_manifests_have_different_encodings() {
    let base = sample_manifest();
    let mut changed = Vec::new();
    let mut other = base.clone();
    other.total_characters = 101;
    changed.push(other);
    let mut other = base.clone();
    other.human_percentage = Percentage::from_millionths(60_000_001).unwrap();
    changed.push(other);
    let mut other = base.clone();
    other.events[1].source = "gpt-4\",\"span_length\":30}".to_string();
    changed.push(other);
    let mut other = base.clone();
    other.events.pop();
    changed.push(other);
    let mut other = base.clone();
    other.events[0].span_length = 1;
    other.events[0].source = "wikipedia\",\"span_length\":10}".to_string();
    changed.push(other);
    let encoded = encode(&base);
    for manifest in &changed {
        assert_ne!(manifest, &base);
        assert_ne!(encode(manifest), encoded);
    }
}
