//! The operations that an editing application calls, each on a ledger that
//! the caller hands in.

use crate::database::{
    filter_view, insertion_outcome, limit_view, query_result, Database, LedgerError,
};
use crate::event::{
    digested, event_views, EventResponse, ProvenanceEvent, ProvenanceEventInput,
};
use crate::manifest::{manifest_of, ManifestData, DEFAULT_EXCERPT_LIMIT};
use vstd::prelude::*;
use vstd::string::StringExecFns;

verus! {

/// The greeting for `name`.
pub fn greet(name: &str) -> (greeting: String)
    ensures
        greeting@ == "Hello, "@ + name@ + "! You've been greeted from Rust!"@,
{
    let mut greeting = String::from_str("Hello, ");
    greeting.append(name);
    greeting.append("! You've been greeted from Rust!");
    greeting
}

/// Records an edit: digests the attributed text and appends the event to the
/// ledger. The plain text is dropped; only its digest is stored.
pub fn log_provenance_event(db: &mut Database, event: ProvenanceEventInput) -> (r: Result<
    EventResponse,
    LedgerError,
>)
    requires
        old(db).wf(),
    ensures
        final(db).wf(),
        match r {
            Ok(response) => {
                &&& insertion_outcome(old(db)@, digested(event@)) == Ok::<int, LedgerError>(
                    response.id as int,
                )
                &&& response.text_hash@ == digested(event@).text_hash
                &&& final(db)@ == old(db)@.push(digested(event@))
            },
            Err(e) => {
                &&& insertion_outcome(old(db)@, digested(event@)) == Err::<int, LedgerError>(e)
                &&& final(db)@ == old(db)@
            },
        },
{
    db.insert_event(event.into_event())
}

/// The events of the ledger that carry the given type, newest first, at
/// most `limit` of them.
pub fn get_event_history(db: &Database, limit: Option<u32>, event_type: Option<String>) -> (found:
    Vec<ProvenanceEvent>)
    ensures
        event_views(found@) == query_result(db@, filter_view(event_type), limit_view(limit)),
{
    db.get_events(limit, event_type)
}

/// The manifest of the ledger with the default excerpt.
pub fn generate_manifest(db: &Database) -> (manifest: ManifestData)
    requires
        db.wf(),
    ensures
        manifest@ == manifest_of(db@, DEFAULT_EXCERPT_LIMIT as nat),
{
    db.generate_manifest()
}

} // verus!
