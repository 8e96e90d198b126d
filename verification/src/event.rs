//! The data model of the ledger: attribution events, what a caller submits
//! and what the ledger answers.

use crate::bytes::text_equal;
use crate::crypto_utils::{hash_text, hex_lower, is_digest, is_digest_text, sha256_digest};
use vstd::prelude::*;
use vstd::string::StringExecFns;
use vstd::utf8::encode_utf8;

verus! {

/// Who or what produced a span of text.
#[derive(Clone, Copy, Debug, PartialEq, Eq, Structural)]
pub enum EventKind {
    /// Typed by a person.
    Human,
    /// Produced by an AI assistant.
    Ai,
    /// Quoted from an external source.
    Cited,
}

/// The kind that an event type names: `human`, `ai` or `cited`. Any other
/// text names no kind.
pub open spec fn kind_of(event_type: Seq<char>) -> Option<EventKind> {
    if event_type == "human"@ {
        Some(EventKind::Human)
    } else if event_type == "ai"@ {
        Some(EventKind::Ai)
    } else if event_type == "cited"@ {
        Some(EventKind::Cited)
    } else {
        None
    }
}

impl EventKind {
    /// The event type that names this kind.
    pub open spec fn name_text(self) -> Seq<char> {
        match self {
            EventKind::Human => "human"@,
            EventKind::Ai => "ai"@,
            EventKind::Cited => "cited"@,
        }
    }

    /// Reads an event type. The set of kinds is closed: unknown text is
    /// `None`, never coerced.
    pub fn parse(event_type: &str) -> (kind: Option<EventKind>)
        ensures
            kind == kind_of(event_type@),
    {
        if text_equal(event_type, "human") {
            Some(EventKind::Human)
        } else if text_equal(event_type, "ai") {
            Some(EventKind::Ai)
        } else if text_equal(event_type, "cited") {
            Some(EventKind::Cited)
        } else {
            None
        }
    }

    /// The event type that names this kind.
    pub fn name(&self) -> (text: String)
        ensures
            text@ == self.name_text(),
    {
        match self {
            EventKind::Human => String::from_str("human"),
            EventKind::Ai => String::from_str("ai"),
            EventKind::Cited => String::from_str("cited"),
        }
    }
}

/// Every kind is named by exactly its own event type.
pub proof fn lemma_kind_names_round_trip(kind: EventKind)
    ensures
        kind_of(kind.name_text()) == Some(kind),
{
    reveal_strlit("human");
    reveal_strlit("ai");
    reveal_strlit("cited");
    assert("human"@.len() == 5);
    assert("ai"@.len() == 2);
    assert("cited"@.len() == 5);
    assert("human"@[0] == 'h');
    assert("cited"@[0] == 'c');
}

/// One attributed span of text, as the ledger stores it.
///
/// The ledger never holds the attributed text itself, only its digest.
#[derive(Debug, PartialEq, Eq)]
pub struct ProvenanceEvent {
    /// ISO-8601 time of the edit, supplied by the caller.
    pub timestamp: String,
    /// `human`, `ai` or `cited`.
    pub event_type: String,
    /// SHA-256 digest of the attributed text, 64 lower-case hex digits.
    pub text_hash: String,
    /// Author id, model name or citation identifier.
    pub source: String,
    /// Number of characters attributed to this event.
    pub span_length: usize,
}

/// The mathematical value of a `ProvenanceEvent`.
pub struct EventView {
    pub timestamp: Seq<char>,
    pub event_type: Seq<char>,
    pub text_hash: Seq<char>,
    pub source: Seq<char>,
    pub span_length: nat,
}

impl View for ProvenanceEvent {
    type V = EventView;

    open spec fn view(&self) -> EventView {
        EventView {
            timestamp: self.timestamp@,
            event_type: self.event_type@,
            text_hash: self.text_hash@,
            source: self.source@,
            span_length: self.span_length as nat,
        }
    }
}

impl Clone for ProvenanceEvent {
    fn clone(&self) -> (copy: Self)
        ensures
            copy@ == self@,
    {
        ProvenanceEvent {
            timestamp: self.timestamp.clone(),
            event_type: self.event_type.clone(),
            text_hash: self.text_hash.clone(),
            source: self.source.clone(),
            span_length: self.span_length,
        }
    }
}

/// The values of a sequence of events, in the same order.
pub open spec fn event_views(events: Seq<ProvenanceEvent>) -> Seq<EventView> {
    Seq::new(events.len(), |i: int| events[i]@)
}

/// An event that the ledger accepts: its type names a kind and its hash has
/// the shape of a digest.
pub open spec fn event_valid(event: EventView) -> bool {
    &&& kind_of(event.event_type) is Some
    &&& is_digest_text(event.text_hash)
}

impl ProvenanceEvent {
    /// The kind that this event's type names, if any.
    pub fn kind(&self) -> (kind: Option<EventKind>)
        ensures
            kind == kind_of(self@.event_type),
    {
        EventKind::parse(self.event_type.as_str())
    }

    /// Tests whether the ledger accepts this event.
    pub fn is_valid(&self) -> (valid: bool)
        ensures
            valid == event_valid(self@),
    {
        self.kind().is_some() && is_digest(self.text_hash.as_str())
    }
}

/// An attributed span as an editor submits it, with the text in plain form.
#[derive(Debug, PartialEq, Eq)]
pub struct ProvenanceEventInput {
    /// ISO-8601 time of the edit.
    pub timestamp: String,
    /// `human`, `ai` or `cited`.
    pub event_type: String,
    /// The attributed text. It is digested before anything is stored.
    pub text: String,
    /// Author id, model name or citation identifier.
    pub source: String,
    /// Number of characters attributed to this event.
    pub span_length: usize,
}

/// The mathematical value of a `ProvenanceEventInput`.
pub struct EventInputView {
    pub timestamp: Seq<char>,
    pub event_type: Seq<char>,
    pub text: Seq<char>,
    pub source: Seq<char>,
    pub span_length: nat,
}

impl View for ProvenanceEventInput {
    type V = EventInputView;

    open spec fn view(&self) -> EventInputView {
        EventInputView {
            timestamp: self.timestamp@,
            event_type: self.event_type@,
            text: self.text@,
            source: self.source@,
            span_length: self.span_length as nat,
        }
    }
}

impl Clone for ProvenanceEventInput {
    fn clone(&self) -> (copy: Self)
        ensures
            copy@ == self@,
    {
        ProvenanceEventInput {
            timestamp: self.timestamp.clone(),
            event_type: self.event_type.clone(),
            text: self.text.clone(),
            source: self.source.clone(),
            span_length: self.span_length,
        }
    }
}

/// The event that is stored for an input: the same fields, with the text
/// replaced by its digest.
pub open spec fn digested(input: EventInputView) -> EventView {
    EventView {
        timestamp: input.timestamp,
        event_type: input.event_type,
        text_hash: hex_lower(sha256_digest(encode_utf8(input.text))),
        source: input.source,
        span_length: input.span_length,
    }
}

impl ProvenanceEventInput {
    /// Replaces the plain text by its SHA-256 digest.
    pub fn into_event(self) -> (event: ProvenanceEvent)
        ensures
            event@ == digested(self@),
            is_digest_text(event@.text_hash),
    {
        let text_hash = hash_text(self.text.as_str());
        ProvenanceEvent {
            timestamp: self.timestamp,
            event_type: self.event_type,
            text_hash,
            source: self.source,
            span_length: self.span_length,
        }
    }
}

/// What the ledger answers to an append.
#[derive(Debug, PartialEq, Eq)]
pub struct EventResponse {
    /// The identifier assigned to the event.
    pub id: i64,
    /// The digest that was stored.
    pub text_hash: String,
}

impl Clone for EventResponse {
    fn clone(&self) -> (copy: Self)
        ensures
            copy.id == self.id,
            copy.text_hash@ == self.text_hash@,
    {
        EventResponse { id: self.id, text_hash: self.text_hash.clone() }
    }
}

} // verus!
