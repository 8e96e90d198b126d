use sonnun::crypto_utils::hash_text;
use sonnun::database::{CharacterTotals, Database, EventCounts, LedgerError};
use sonnun::event::{EventKind, ProvenanceEvent, ProvenanceEventInput};
use sonnun::manifest::{build_manifest, Percentage};

fn create_test_event(event_type: &str, source: &str, span_length: usize) -> ProvenanceEvent {
    ProvenanceEvent {
        timestamp: "2024-05-01T12:00:00Z".to_string(),
        event_type: event_type.to_string(),
        text_hash: hash_text(&format!("hash_{}", source)),
        source: source.to_string(),
        span_length,
    }
}

fn event_at(timestamp: &str, event_type: &str, source: &str, span_length: usize) -> ProvenanceEvent {
    ProvenanceEvent {
        timestamp: timestamp.to_string(),
        event_type: event_type.to_string(),
        text_hash: hash_text(source),
        source: source.to_string(),
        span_length,
    }
}

fn percent(p: Percentage) -> f64 {
    p.millionths() as f64 / 1_000_000.0
}

#[test]
fn test_insert_event() {
    let mut db = Database::new();
    db.clear_events();

    let event = create_test_event("human", "user", 10);
    let result = db.insert_event(event.clone());

    assert!(result.is_ok());
    let response = result.unwrap();
    assert_eq!(response.text_hash, event.text_hash);
    assert_eq!(response.id, 1);
}

#[test]
fn test_get_events_with_filter() {
    let mut db = Database::new();
    db.clear_events();

    db.insert_event(create_test_event("human", "user", 10)).unwrap();
    db.insert_event(create_test_event("ai", "gpt-4", 15)).unwrap();
    db.insert_event(create_test_event("cited", "wikipedia", 20)).unwrap();

    let human_events = db.get_events(None, Some("human".to_string()));
    assert_eq!(human_events.len(), 1);
    assert_eq!(human_events[0].event_type, "human");

    let all_events = db.get_events(None, None);
    assert_eq!(all_events.len(), 3);
}

#[test]
fn test_get_events_with_limit() {
    let mut db = Database::new();
    db.clear_events();

    for i in 0..5 {
        db.insert_event(create_test_event("human", &format!("user{}", i), 10)).unwrap();
    }

    let limited_events = db.get_events(Some(3), None);
    assert_eq!(limited_events.len(), 3);
}

#[test]
fn test_generate_manifest() {
    let mut db = Database::new();
    db.clear_events();

    db.insert_event(create_test_event("human", "user", 60)).unwrap();
    db.insert_event(create_test_event("ai", "gpt-4", 30)).unwrap();
    db.insert_event(create_test_event("cited", "wikipedia", 10)).unwrap();

    let manifest = db.generate_manifest();

    assert_eq!(percent(manifest.human_percentage), 60.0);
    assert_eq!(percent(manifest.ai_percentage), 30.0);
    assert_eq!(percent(manifest.cited_percentage), 10.0);
    assert_eq!(manifest.total_characters, 100);
}

#[test]
fn test_get_event_counts() {
    let mut db = Database::new();
    db.clear_events();

    db.insert_event(create_test_event("human", "user1", 10)).unwrap();
    db.insert_event(create_test_event("human", "user2", 10)).unwrap();
    db.insert_event(create_test_event("ai", "gpt-4", 15)).unwrap();

    let counts = db.get_event_counts();

    assert_eq!(counts.get("human"), Some(2));
    assert_eq!(counts.get("ai"), Some(1));
    assert_eq!(counts.get("cited"), None);
}

#[test]
fn test_clear_events() {
    let mut db = Database::new();

    db.insert_event(create_test_event("human", "user", 10)).unwrap();

    let events_before = db.get_events(None, None);
    assert!(!events_before.is_empty());

    db.clear_events();

    let events_after = db.get_events(None, None);
    assert!(events_after.is_empty());
}

#[test]
fn identifiers_count_up_and_start_again_after_clearing() {
    let mut db = Database::new();
    for expected in 1..=4 {
        let response = db.insert_event(create_test_event("ai", "model", 1)).unwrap();
        assert_eq!(response.id, expected);
    }
    assert_eq!(db.len(), 4);
    db.clear_events();
    assert_eq!(db.len(), 0);
    assert_eq!(db.insert_event(create_test_event("ai", "model", 1)).unwrap().id, 1);
}

#[test]
fn unknown_kind_is_refused_and_nothing_is_stored() {
    let mut db = Database::new();
    let result = db.insert_event(create_test_event("robot", "user", 10));
    assert_eq!(result, Err(LedgerError::InvalidEventKind));
    let result = db.insert_event(create_test_event("Human", "user", 10));
    assert_eq!(result, Err(LedgerError::InvalidEventKind));
    assert_eq!(db.len(), 0);
    assert_eq!(db.aggregate(), CharacterTotals { human: 0, ai: 0, cited: 0 });
}

#[test]
fn plain_text_in_place_of_a_digest_is_refused() {
    let mut db = Database::new();
    let mut event = create_test_event("human", "user", 10);
    event.text_hash = "the attributed text itself".to_string();
    assert_eq!(db.insert_event(event), Err(LedgerError::InvalidDigest));

    let mut upper = create_test_event("human", "user", 10);
    upper.text_hash = upper.text_hash.to_uppercase().replace('0', "A");
    assert_eq!(db.insert_event(upper), Err(LedgerError::InvalidDigest));

    let mut short = create_test_event("human", "user", 10);
    short.text_hash.pop();
    assert_eq!(db.insert_event(short), Err(LedgerError::InvalidDigest));
    assert_eq!(db.len(), 0);
}

#[test]
fn character_total_that_does_not_fit_is_refused() {
    let mut db = Database::new();
    db.insert_event(create_test_event("human", "user", usize::MAX - 5)).unwrap();
    assert_eq!(
        db.insert_event(create_test_event("ai", "model", 6)),
        Err(LedgerError::CapacityExceeded)
    );
    assert_eq!(db.len(), 1);
    db.insert_event(create_test_event("ai", "model", 5)).unwrap();
    assert_eq!(
        db.aggregate(),
        CharacterTotals { human: usize::MAX - 5, ai: 5, cited: 0 }
    );
    let manifest = db.generate_manifest();
    assert_eq!(manifest.total_characters, usize::MAX);
    assert_eq!(manifest.human_percentage.millionths(), 99_999_999);
    assert_eq!(manifest.ai_percentage.millionths(), 0);
}

#[test]
fn ledger_error_messages_are_fixed() {
    assert_eq!(LedgerError::InvalidEventKind.message(), "Invalid event type");
    assert_eq!(LedgerError::InvalidDigest.message(), "Invalid text hash");
    assert_eq!(LedgerError::CapacityExceeded.message(), "Ledger capacity exceeded");
}

#[test]
fn query_for_one_newest_human_event() {
    let mut db = Database::new();
    db.insert_event(event_at("2024-01-01T00:00:00Z", "human", "first", 1)).unwrap();
    db.insert_event(event_at("2024-01-02T00:00:00Z", "human", "second", 2)).unwrap();
    db.insert_event(event_at("2024-01-03T00:00:00Z", "human", "third", 3)).unwrap();

    let found = db.get_events(Some(1), Some("human".to_string()));
    assert_eq!(found.len(), 1);
    assert_eq!(found[0], event_at("2024-01-03T00:00:00Z", "human", "third", 3));
}

#[test]
fn query_orders_by_timestamp_not_by_insertion() {
    let mut db = Database::new();
    db.insert_event(event_at("2024-03-01T00:00:00Z", "human", "c", 3)).unwrap();
    db.insert_event(event_at("2024-01-01T00:00:00Z", "ai", "a", 1)).unwrap();
    db.insert_event(event_at("2024-04-01T00:00:00Z", "cited", "d", 4)).unwrap();
    db.insert_event(event_at("2024-02-01T00:00:00Z", "human", "b", 2)).unwrap();

    let sources: Vec<String> = db.get_events(None, None).into_iter().map(|e| e.source).collect();
    assert_eq!(sources, vec!["d", "c", "b", "a"]);

    let sources: Vec<String> = db
        .get_events(Some(2), Some("human".to_string()))
        .into_iter()
        .map(|e| e.source)
        .collect();
    assert_eq!(sources, vec!["c", "b"]);
}

#[test]
fn equal_timestamps_answer_the_last_inserted_first() {
    let mut db = Database::new();
    db.insert_event(event_at("2024-01-01T00:00:00Z", "human", "one", 1)).unwrap();
    db.insert_event(event_at("2024-01-02T00:00:00Z", "human", "two", 1)).unwrap();
    db.insert_event(event_at("2024-01-01T00:00:00Z", "human", "three", 1)).unwrap();
    db.insert_event(event_at("2024-01-02T00:00:00Z", "human", "four", 1)).unwrap();
    db.insert_event(event_at("2024-01-01T00:00:00Z", "human", "five", 1)).unwrap();

    let sources: Vec<String> = db.get_events(None, None).into_iter().map(|e| e.source).collect();
    assert_eq!(sources, vec!["four", "two", "five", "three", "one"]);
}

#[test]
fn limits_of_zero_and_beyond_the_end() {
    let mut db = Database::new();
    db.insert_event(create_test_event("human", "a", 1)).unwrap();
    db.insert_event(create_test_event("human", "b", 1)).unwrap();
    assert_eq!(db.get_events(Some(0), None).len(), 0);
    assert_eq!(db.get_events(Some(2), None).len(), 2);
    assert_eq!(db.get_events(Some(u32::MAX), None).len(), 2);
    assert_eq!(db.get_events(None, Some("robot".to_string())).len(), 0);
}

#[test]
fn aggregate_is_the_sum_over_each_kinds_query() {
    let mut db = Database::new();
    db.insert_event(event_at("2024-01-01T00:00:00Z", "human", "a", 7)).unwrap();
    db.insert_event(event_at("2024-01-02T00:00:00Z", "ai", "b", 11)).unwrap();
    db.insert_event(event_at("2024-01-03T00:00:00Z", "human", "c", 13)).unwrap();
    db.insert_event(event_at("2024-01-04T00:00:00Z", "cited", "d", 17)).unwrap();

    let totals = db.aggregate();
    assert_eq!(totals, CharacterTotals { human: 20, ai: 11, cited: 17 });
    for (name, total) in [("human", 20), ("ai", 11), ("cited", 17)] {
        let sum: usize = db
            .get_events(None, Some(name.to_string()))
            .iter()
            .map(|e| e.span_length)
            .sum();
        assert_eq!(sum, total);
    }
    assert_eq!(db.get_event_counts(), EventCounts { human: 2, ai: 1, cited: 1 });
    assert_eq!(db.get_event_counts().get("robot"), None);
}

#[test]
fn empty_ledger_gives_the_zero_manifest() {
    let db = Database::new();
    let manifest = db.generate_manifest();
    assert_eq!(manifest.human_percentage, Percentage::zero());
    assert_eq!(manifest.ai_percentage, Percentage::zero());
    assert_eq!(manifest.cited_percentage, Percentage::zero());
    assert_eq!(manifest.total_characters, 0);
    assert!(manifest.events.is_empty());
    assert_eq!(percent(manifest.human_percentage), 0.0);
}

#[test]
fn shares_are_rounded_down_to_a_millionth_of_a_percent() {
    let mut db = Database::new();
    db.insert_event(create_test_event("human", "a", 1)).unwrap();
    db.insert_event(create_test_event("ai", "b", 1)).unwrap();
    db.insert_event(create_test_event("cited", "c", 1)).unwrap();
    let manifest = build_manifest(&db, 2);
    assert_eq!(manifest.human_percentage.millionths(), 33_333_333);
    assert_eq!(manifest.ai_percentage.millionths(), 33_333_333);
    assert_eq!(manifest.cited_percentage.millionths(), 33_333_333);
    assert_eq!(manifest.human_percentage.whole_percent(), 33);
    assert_eq!(manifest.human_percentage.fraction(), 333_333);
    assert_eq!(manifest.total_characters, 3);
    assert_eq!(manifest.events.len(), 2);
    assert_eq!(Percentage::of(2, 3).millionths(), 66_666_666);
    assert_eq!(Percentage::of(5, 5).millionths(), 100_000_000);
    assert_eq!(Percentage::of(0, 0).millionths(), 0);
    assert_eq!(Percentage::from_millionths(100_000_001), None);
    assert_eq!(Percentage::from_millionths(100_000_000).map(|p| p.whole_percent()), Some(100));
}

#[test]
fn manifest_excerpt_defaults_to_fifty_newest_events() {
    let mut db = Database::new();
    for i in 0..60 {
        db.insert_event(event_at(&format!("2024-01-01T00:00:{:02}Z", i), "human", "u", 1)).unwrap();
    }
    let manifest = db.generate_manifest();
    assert_eq!(manifest.events.len(), 50);
    assert_eq!(manifest.events[0].timestamp, "2024-01-01T00:00:59Z");
    assert_eq!(manifest.events[49].timestamp, "2024-01-01T00:00:10Z");
    assert_eq!(manifest.total_characters, 60);
    assert_eq!(manifest.clone(), manifest);
}

#[test]
fn input_text_is_digested_before_it_is_stored() {
    let input = ProvenanceEventInput {
        timestamp: "2024-01-01T00:00:00Z".to_string(),
        event_type: "human".to_string(),
        text: "Hello, world!".to_string(),
        source: "user".to_string(),
        span_length: 13,
    };
    let event = input.clone().into_event();
    assert_eq!(
        event.text_hash,
        "315f5bdb76d078c43b8ac0064e4a0164612b1fce77c869345bfc94c75894edd3"
    );
    assert_eq!(event.timestamp, input.timestamp);
    assert_eq!(event.source, input.source);
    assert_eq!(event.span_length, 13);
    assert!(event.is_valid());
    assert_eq!(event.kind(), Some(EventKind::Human));
    assert_eq!(EventKind::parse("ai"), Some(EventKind::Ai));
    assert_eq!(EventKind::parse("cited"), Some(EventKind::Cited));
    assert_eq!(EventKind::parse("AI"), None);
    assert_eq!(EventKind::Cited.name(), "cited");
}
