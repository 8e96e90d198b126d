use sonnun::assistant::{
    build_response, prepare_request, AIPrompt, AIResponse, AssistantError, AssistantRequest,
};
use sonnun::database::{Database, LedgerError};
use sonnun::{
    generate_manifest, get_event_history, greet, hash_text, log_provenance_event,
    ProvenanceEventInput,
};

fn input(timestamp: &str, event_type: &str, text: &str) -> ProvenanceEventInput {
    ProvenanceEventInput {
        timestamp: timestamp.to_string(),
        event_type: event_type.to_string(),
        text: text.to_string(),
        source: "editor".to_string(),
        span_length: text.chars().count(),
    }
}

#[test]
fn greeting_names_the_guest() {
    assert_eq!(greet("Ada"), "Hello, Ada! You've been greeted from Rust!");
    assert_eq!(greet(""), "Hello, ! You've been greeted from Rust!");
}

#[test]
fn logging_stores_the_digest_and_never_the_text() {
    let mut db = Database::new();
    let response =
        log_provenance_event(&mut db, input("2024-01-01T00:00:00Z", "human", "secret draft"))
            .unwrap();
    assert_eq!(response.id, 1);
    assert_eq!(response.text_hash, hash_text("secret draft"));
    let stored = get_event_history(&db, None, None);
    assert_eq!(stored.len(), 1);
    assert_eq!(stored[0].text_hash, hash_text("secret draft"));
    assert_eq!(stored[0].span_length, 12);
    assert_eq!(stored[0].source, "editor");
    assert_ne!(stored[0].text_hash, "secret draft");
}

#[test]
fn logging_refuses_an_unknown_kind() {
    let mut db = Database::new();
    assert_eq!(
        log_provenance_event(&mut db, input("2024-01-01T00:00:00Z", "bot", "x")),
        Err(LedgerError::InvalidEventKind)
    );
    assert!(get_event_history(&db, None, None).is_empty());
}

#[test]
fn history_and_manifest_follow_the_ledger() {
    let mut db = Database::new();
    log_provenance_event(&mut db, input("2024-01-01T00:00:00Z", "human", "aaaaaa")).unwrap();
    log_provenance_event(&mut db, input("2024-01-02T00:00:00Z", "ai", "bbb")).unwrap();
    log_provenance_event(&mut db, input("2024-01-03T00:00:00Z", "cited", "c")).unwrap();

    let newest = get_event_history(&db, Some(1), None);
    assert_eq!(newest.len(), 1);
    assert_eq!(newest[0].event_type, "cited");
    let ai = get_event_history(&db, None, Some("ai".to_string()));
    assert_eq!(ai.len(), 1);
    assert_eq!(ai[0].span_length, 3);

    let manifest = generate_manifest(&db);
    assert_eq!(manifest.total_characters, 10);
    assert_eq!(manifest.human_percentage.millionths(), 60_000_000);
    assert_eq!(manifest.ai_percentage.millionths(), 30_000_000);
    assert_eq!(manifest.cited_percentage.millionths(), 10_000_000);
    assert_eq!(manifest.events.len(), 3);
    assert_eq!(manifest, db.generate_manifest());
}

#[test]
fn request_takes_the_defaults_where_the_prompt_gives_none() {
    let request = prepare_request(AIPrompt {
        prompt: "Summarise this.".to_string(),
        model: None,
        max_tokens: None,
    });
    assert_eq!(
        request,
        Ok(AssistantRequest {
            model: "gpt-3.5-turbo".to_string(),
            prompt: "Summarise this.".to_string(),
            max_tokens: 1000,
        })
    );
    let request = prepare_request(AIPrompt {
        prompt: "  padded  ".to_string(),
        model: Some("gpt-4".to_string()),
        max_tokens: Some(5),
    });
    assert_eq!(
        request,
        Ok(AssistantRequest {
            model: "gpt-4".to_string(),
            prompt: "  padded  ".to_string(),
            max_tokens: 5,
        })
    );
}

#[test]
fn blank_prompt_gets_no_request() {
    for prompt in ["", "   ", "\n\t \u{a0}\u{2003}"] {
        let request = prepare_request(AIPrompt {
            prompt: prompt.to_string(),
            model: None,
            max_tokens: None,
        });
        assert_eq!(request, Err(AssistantError::EmptyPrompt));
    }
    assert_eq!(AssistantError::EmptyPrompt.message(), "Prompt cannot be empty");
}

#[test]
fn response_is_put_together_from_its_parts() {
    assert_eq!(
        build_response(Some("Hi".to_string()), "gpt-4".to_string(), Some(42)),
        AIResponse {
            content: "Hi".to_string(),
            model: "gpt-4".to_string(),
            token_count: Some(42),
        }
    );
    assert_eq!(
        build_response(None, "m".to_string(), None),
        AIResponse {
            content: String::new(),
            model: "m".to_string(),
            token_count: None,
        }
    );
    assert_eq!(
        build_response(None, "m".to_string(), Some(0x1_0000_0007)).token_count,
        Some(7)
    );
}
