//! Provenance tracking for edited text.
//!
//! An editor records, for every span of text, who or what produced it: a
//! person, an AI assistant or a cited source. The records are summarised in
//! a manifest, the manifest is signed, and the signed manifest is embedded
//! in the published document, where anyone can check that it was not
//! altered and which key signed it.
//!
//! * [`event`] and [`database`]: the events and the append-only ledger that
//!   holds them, with newest-first queries and per-kind totals;
//! * [`manifest`]: the summary of a ledger, with shares as fixed-point
//!   numbers;
//! * [`canonical`]: the one encoding of a manifest over which signatures
//!   are made, and [`unambiguous`]: the proof that it stands for one
//!   manifest only;
//! * [`crypto_utils`]: digests, key pairs, signatures;
//! * [`envelope`]: manifest, signature and key as they are embedded;
//! * [`scan`], [`json`] and [`verification`]: finding the envelope in a
//!   document, reading it and checking it;
//! * [`recovery`] and [`round_trip`]: the proofs that what was sealed and
//!   embedded is found again and verifies;
//! * [`commands`] and [`assistant`]: what the editing application calls;
//! * [`bytes`] and [`decimal`]: byte strings and decimal numbers.

pub mod assistant;
pub mod bytes;
pub mod canonical;
pub mod commands;
pub mod crypto_utils;
pub mod database;
pub mod decimal;
pub mod envelope;
pub mod event;
pub mod json;
pub mod manifest;
pub mod recovery;
pub mod round_trip;
pub mod scan;
pub mod unambiguous;
pub mod verification;

pub use assistant::{AIPrompt, AIResponse};
pub use commands::{generate_manifest, get_event_history, greet, log_provenance_event};
pub use crypto_utils::{generate_keypair, hash_text, sign_document, verify_signature};
pub use database::Database;
pub use envelope::SignedEnvelope;
pub use event::{EventResponse, ProvenanceEvent, ProvenanceEventInput};
pub use manifest::ManifestData;
pub use verification::{validate_manifest_structure, verify_document, VerificationResult};
