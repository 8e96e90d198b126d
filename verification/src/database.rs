//! The provenance ledger: an append-only record of attribution events with
//! filtered, newest-first retrieval and per-kind aggregation.
//!
//! The ledger is an explicit value that is handed to every operation. Events
//! are kept in insertion order, which is the only order of record; queries
//! answer by timestamp, newest first, and among equal timestamps the event
//! inserted last comes first.

use crate::bytes::{
    bytes_before, is_before, lemma_before_asymmetric, lemma_before_irreflexive,
    lemma_before_total, lemma_before_transitive, text_equal,
};
use crate::crypto_utils::is_digest;
use crate::event::{
    event_valid, event_views, kind_of, lemma_kind_names_round_trip, EventKind, EventResponse,
    EventView, ProvenanceEvent,
};
use vstd::prelude::*;
use vstd::string::StringExecFns;
use vstd::utf8::encode_utf8;

verus! {

/// Why the ledger refused an event.
#[derive(Clone, Copy, Debug, PartialEq, Eq, Structural)]
pub enum LedgerError {
    /// The event type is none of `human`, `ai`, `cited`.
    InvalidEventKind,
    /// The text hash is not 64 lower-case hexadecimal digits.
    InvalidDigest,
    /// The ledger cannot take the event: the next identifier or the total
    /// number of characters would no longer fit its integer type.
    CapacityExceeded,
}

impl LedgerError {
    /// The text that `message` returns for each error.
    pub open spec fn message_text(self) -> Seq<char> {
        match self {
            LedgerError::InvalidEventKind => "Invalid event type"@,
            LedgerError::InvalidDigest => "Invalid text hash"@,
            LedgerError::CapacityExceeded => "Ledger capacity exceeded"@,
        }
    }

    /// A human-readable description of the error.
    pub fn message(&self) -> (text: String)
        ensures
            text@ == self.message_text(),
    {
        match self {
            LedgerError::InvalidEventKind => String::from_str("Invalid event type"),
            LedgerError::InvalidDigest => String::from_str("Invalid text hash"),
            LedgerError::CapacityExceeded => String::from_str("Ledger capacity exceeded"),
        }
    }
}

// ---------------------------------------------------------------------------
// The order of a query
// ---------------------------------------------------------------------------

/// `a` carries a strictly later timestamp than `b`. Timestamps are compared
/// as byte strings, which for ISO-8601 texts of one format is the order of
/// time.
pub open spec fn newer(a: EventView, b: EventView) -> bool {
    bytes_before(encode_utf8(b.timestamp), encode_utf8(a.timestamp))
}

/// No event of the sequence stands behind a strictly older one.
pub open spec fn descending(events: Seq<EventView>) -> bool {
    forall|i: int, j: int|
        0 <= i < j < events.len() ==> !newer(#[trigger] events[j], #[trigger] events[i])
}

/// Where an event belongs among events that were all inserted after it and
/// are already in query order: behind every event that is at least as new,
/// in front of the first one that is strictly older.
pub open spec fn place_index(sorted: Seq<EventView>, event: EventView) -> nat
    decreases sorted.len(),
{
    if sorted.len() == 0 || newer(event, sorted[0]) {
        0
    } else {
        1 + place_index(sorted.drop_first(), event)
    }
}

/// The events in query order: by timestamp, newest first; events with equal
/// timestamps in reverse insertion order.
pub open spec fn newest_first(events: Seq<EventView>) -> Seq<EventView>
    decreases events.len(),
{
    if events.len() == 0 {
        Seq::empty()
    } else {
        let rest = newest_first(events.drop_first());
        rest.insert(place_index(rest, events[0]) as int, events[0])
    }
}

/// The event passes the filter: no filter, or exactly the type asked for.
pub open spec fn type_matches(event: EventView, event_type: Option<Seq<char>>) -> bool {
    match event_type {
        Some(wanted) => event.event_type == wanted,
        None => true,
    }
}

/// The events that pass the filter, in the order in which they stand.
pub open spec fn select_type(events: Seq<EventView>, event_type: Option<Seq<char>>) -> Seq<
    EventView,
>
    decreases events.len(),
{
    if events.len() == 0 {
        Seq::empty()
    } else if type_matches(events[0], event_type) {
        seq![events[0]] + select_type(events.drop_first(), event_type)
    } else {
        select_type(events.drop_first(), event_type)
    }
}

/// What a query answers: the events that pass the filter, newest first, cut
/// off after `limit` events where a limit is given.
pub open spec fn query_result(
    events: Seq<EventView>,
    event_type: Option<Seq<char>>,
    limit: Option<nat>,
) -> Seq<EventView> {
    let sorted = newest_first(select_type(events, event_type));
    match limit {
        Some(n) => if n < sorted.len() {
            sorted.take(n as int)
        } else {
            sorted
        },
        None => sorted,
    }
}

// ---------------------------------------------------------------------------
// Aggregation
// ---------------------------------------------------------------------------

/// The sum of the span lengths of a sequence of events.
pub open spec fn span_sum(events: Seq<EventView>) -> nat
    decreases events.len(),
{
    if events.len() == 0 {
        0
    } else {
        span_sum(events.drop_last()) + events.last().span_length
    }
}

/// The events of one kind, in the order in which they stand.
pub open spec fn of_kind(events: Seq<EventView>, kind: EventKind) -> Seq<EventView> {
    select_type(events, Some(kind.name_text()))
}

/// The number of characters attributed to one kind.
pub open spec fn kind_total(events: Seq<EventView>, kind: EventKind) -> nat {
    span_sum(of_kind(events, kind))
}

/// The number of events of one kind.
pub open spec fn kind_count(events: Seq<EventView>, kind: EventKind) -> nat {
    of_kind(events, kind).len()
}

/// The number of characters attributed to any of the three kinds.
pub open spec fn total_characters(events: Seq<EventView>) -> nat {
    kind_total(events, EventKind::Human) + kind_total(events, EventKind::Ai) + kind_total(
        events,
        EventKind::Cited,
    )
}

/// Every event of the sequence is one that the ledger accepts.
pub open spec fn all_valid(events: Seq<EventView>) -> bool {
    forall|i: int| 0 <= i < events.len() ==> event_valid(#[trigger] events[i])
}

/// Per-kind character totals of a ledger.
#[derive(Clone, Copy, Debug, PartialEq, Eq, Structural)]
pub struct CharacterTotals {
    pub human: usize,
    pub ai: usize,
    pub cited: usize,
}

/// Per-kind event counts of a ledger.
#[derive(Clone, Copy, Debug, PartialEq, Eq, Structural)]
pub struct EventCounts {
    pub human: usize,
    pub ai: usize,
    pub cited: usize,
}

impl EventCounts {
    /// The count listed for one kind: `None` where the ledger holds no event
    /// of it.
    pub open spec fn listed(self, kind: Option<EventKind>) -> Option<usize> {
        match kind {
            Some(EventKind::Human) => if self.human > 0 {
                Some(self.human)
            } else {
                None
            },
            Some(EventKind::Ai) => if self.ai > 0 {
                Some(self.ai)
            } else {
                None
            },
            Some(EventKind::Cited) => if self.cited > 0 {
                Some(self.cited)
            } else {
                None
            },
            None => None,
        }
    }

    /// Looks a count up by event type, as in a table that lists only the
    /// types that occur: `None` for a type without events and for text that
    /// names no kind.
    pub fn get(&self, event_type: &str) -> (count: Option<usize>)
        ensures
            count == self.listed(kind_of(event_type@)),
    {
        match EventKind::parse(event_type) {
            Some(EventKind::Human) => if self.human > 0 {
                Some(self.human)
            } else {
                None
            },
            Some(EventKind::Ai) => if self.ai > 0 {
                Some(self.ai)
            } else {
                None
            },
            Some(EventKind::Cited) => if self.cited > 0 {
                Some(self.cited)
            } else {
                None
            },
            None => None,
        }
    }
}

// ---------------------------------------------------------------------------
// Lemmas
// ---------------------------------------------------------------------------

/// Selecting from a sequence with one more event at its end selects that
/// event last, if it passes the filter.
pub proof fn lemma_select_push(
    events: Seq<EventView>,
    event: EventView,
    event_type: Option<Seq<char>>,
)
    ensures
        select_type(events.push(event), event_type) == if type_matches(event, event_type) {
            select_type(events, event_type).push(event)
        } else {
            select_type(events, event_type)
        },
    decreases events.len(),
{
    if events.len() == 0 {
        assert(events.push(event).drop_first() =~= Seq::<EventView>::empty());
        assert(select_type(events.push(event).drop_first(), event_type) =~= Seq::<
            EventView,
        >::empty());
        if type_matches(event, event_type) {
            assert(select_type(events.push(event), event_type) =~= select_type(
                events,
                event_type,
            ).push(event));
        }
    } else {
        assert(events.push(event).drop_first() =~= events.drop_first().push(event));
        lemma_select_push(events.drop_first(), event, event_type);
        let tail = select_type(events.drop_first(), event_type);
        if type_matches(events[0], event_type) {
            assert((seq![events[0]] + tail).push(event) =~= seq![events[0]] + tail.push(event));
        }
    }
}

/// An event of one kind passes the filter of exactly that kind's name.
pub proof fn lemma_kind_filter(event: EventView, kind: EventKind)
    ensures
        type_matches(event, Some(kind.name_text())) == (kind_of(event.event_type) == Some(kind)),
{
    lemma_kind_names_round_trip(EventKind::Human);
    lemma_kind_names_round_trip(EventKind::Ai);
    lemma_kind_names_round_trip(EventKind::Cited);
}

/// The span sum of a concatenation is the sum of the two span sums.
pub proof fn lemma_span_sum_concat(a: Seq<EventView>, b: Seq<EventView>)
    ensures
        span_sum(a + b) == span_sum(a) + span_sum(b),
    decreases b.len(),
{
    if b.len() == 0 {
        assert(a + b =~= a);
    } else {
        assert((a + b).drop_last() =~= a + b.drop_last());
        lemma_span_sum_concat(a, b.drop_last());
    }
}

/// Inserting an event anywhere adds its span length to the span sum.
pub proof fn lemma_span_sum_insert(events: Seq<EventView>, at: int, event: EventView)
    requires
        0 <= at <= events.len(),
    ensures
        span_sum(events.insert(at, event)) == span_sum(events) + event.span_length,
{
    let front = events.subrange(0, at);
    let back = events.subrange(at, events.len() as int);
    assert(events =~= front + back);
    lemma_span_sum_concat(front, back);
    lemma_span_sum_concat(front.push(event), back);
    assert(front.push(event).drop_last() =~= front);
}

/// What `place_index` picks: a position in range, with nothing strictly
/// older than the event in front of it and a strictly older event at it.
pub proof fn lemma_place_index_bounds(sorted: Seq<EventView>, event: EventView)
    ensures
        place_index(sorted, event) <= sorted.len(),
        forall|i: int|
            0 <= i < place_index(sorted, event) ==> !newer(event, #[trigger] sorted[i]),
        place_index(sorted, event) < sorted.len() ==> newer(
            event,
            sorted[place_index(sorted, event) as int],
        ),
    decreases sorted.len(),
{
    if sorted.len() == 0 || newer(event, sorted[0]) {
    } else {
        let tail = sorted.drop_first();
        lemma_place_index_bounds(tail, event);
        assert forall|i: int| 0 <= i < place_index(sorted, event) implies !newer(
            event,
            #[trigger] sorted[i],
        ) by {
            if i > 0 {
                assert(sorted[i] == tail[i - 1]);
            }
        }
        if place_index(sorted, event) < sorted.len() {
            let at = place_index(tail, event) as int;
            assert(sorted[at + 1] == tail[at]);
        }
    }
}

/// If `old` is not strictly older than `mid`, and `mid` is not strictly
/// older than `new`, then `old` is not strictly older than `new`.
proof fn lemma_not_newer_chain(a: EventView, b: EventView, c: EventView)
    requires
        !newer(b, a),
        !newer(c, b),
    ensures
        !newer(c, a),
{
    let ta = encode_utf8(a.timestamp);
    let tb = encode_utf8(b.timestamp);
    let tc = encode_utf8(c.timestamp);
    if bytes_before(ta, tc) {
        lemma_before_total(tb, tc);
        if tb == tc {
        } else if bytes_before(tc, tb) {
            lemma_before_transitive(ta, tc, tb);
        }
    }
}

/// In a sequence in query order, the position that a scan from the back
/// finds is the one that `place_index` picks.
pub proof fn lemma_place_index_is(sorted: Seq<EventView>, event: EventView, at: int)
    requires
        descending(sorted),
        0 <= at <= sorted.len(),
        forall|j: int| at <= j < sorted.len() ==> newer(event, #[trigger] sorted[j]),
        at == 0 || !newer(event, sorted[at - 1]),
    ensures
        place_index(sorted, event) == at,
    decreases sorted.len(),
{
    if sorted.len() == 0 {
    } else if at == 0 {
        assert(newer(event, sorted[0]));
    } else {
        if at - 1 > 0 {
            // sorted[0] is at least as new as sorted[at - 1], which is at
            // least as new as the event
            assert(!newer(sorted[at - 1], sorted[0]));
            lemma_not_newer_chain(sorted[0], sorted[at - 1], event);
        }
        assert(!newer(event, sorted[0]));
        let tail = sorted.drop_first();
        assert forall|i: int, j: int| 0 <= i < j < tail.len() implies !newer(
            #[trigger] tail[j],
            #[trigger] tail[i],
        ) by {
            assert(tail[i] == sorted[i + 1]);
            assert(tail[j] == sorted[j + 1]);
        }
        assert forall|j: int| at - 1 <= j < tail.len() implies newer(event, #[trigger] tail[j]) by {
            assert(tail[j] == sorted[j + 1]);
        }
        if at - 1 > 0 {
            assert(tail[at - 2] == sorted[at - 1]);
        }
        lemma_place_index_is(tail, event, at - 1);
    }
}

/// Placing an event keeps a sequence in query order.
pub proof fn lemma_place_keeps_descending(sorted: Seq<EventView>, event: EventView)
    requires
        descending(sorted),
    ensures
        descending(sorted.insert(place_index(sorted, event) as int, event)),
{
    lemma_place_index_bounds(sorted, event);
    let at = place_index(sorted, event) as int;
    let placed = sorted.insert(at, event);
    sorted.insert_ensures(at, event);
    assert forall|i: int, j: int| 0 <= i < j < placed.len() implies !newer(
        #[trigger] placed[j],
        #[trigger] placed[i],
    ) by {
        if j < at {
            assert(placed[i] == sorted[i]);
            assert(placed[j] == sorted[j]);
        } else if j == at {
            assert(placed[i] == sorted[i]);
        } else if i == at {
            // placed[j] is sorted[j - 1], which is no newer than sorted[at],
            // which is strictly older than the event
            assert(placed[j] == sorted[j - 1]);
            let ts_event = encode_utf8(event.timestamp);
            let ts_at = encode_utf8(sorted[at].timestamp);
            let ts_j = encode_utf8(sorted[j - 1].timestamp);
            assert(bytes_before(ts_at, ts_event));
            if bytes_before(ts_event, ts_j) {
                lemma_before_transitive(ts_at, ts_event, ts_j);
                if j - 1 == at {
                    lemma_before_asymmetric(ts_at, ts_event);
                } else {
                    assert(!newer(sorted[j - 1], sorted[at]));
                }
            }
        } else if i < at {
            assert(placed[i] == sorted[i]);
            assert(placed[j] == sorted[j - 1]);
        } else {
            assert(placed[i] == sorted[i - 1]);
            assert(placed[j] == sorted[j - 1]);
        }
    }
}

/// A query answers newest first: no event of the answer stands behind a
/// strictly older one.
pub proof fn lemma_newest_first_descending(events: Seq<EventView>)
    ensures
        descending(newest_first(events)),
    decreases events.len(),
{
    if events.len() > 0 {
        lemma_newest_first_descending(events.drop_first());
        lemma_place_keeps_descending(newest_first(events.drop_first()), events[0]);
    }
}

/// Query order only rearranges: it holds every event exactly as often as
/// the sequence it was made from.
pub proof fn lemma_newest_first_permutes(events: Seq<EventView>)
    ensures
        newest_first(events).to_multiset() == events.to_multiset(),
        newest_first(events).len() == events.len(),
    decreases events.len(),
{
    if events.len() > 0 {
        let rest = newest_first(events.drop_first());
        lemma_newest_first_permutes(events.drop_first());
        lemma_place_index_bounds(rest, events[0]);
        vstd::seq_lib::to_multiset_insert(rest, place_index(rest, events[0]) as int, events[0]);
        vstd::seq_lib::to_multiset_insert(events.drop_first(), 0, events[0]);
        assert(events.drop_first().insert(0, events[0]) =~= events);
    } else {
        assert(newest_first(events) =~= events);
    }
}

/// Query order keeps the span sum.
pub proof fn lemma_newest_first_span_sum(events: Seq<EventView>)
    ensures
        span_sum(newest_first(events)) == span_sum(events),
    decreases events.len(),
{
    if events.len() > 0 {
        let rest = newest_first(events.drop_first());
        lemma_newest_first_span_sum(events.drop_first());
        lemma_place_index_bounds(rest, events[0]);
        lemma_span_sum_insert(rest, place_index(rest, events[0]) as int, events[0]);
        lemma_span_sum_insert(events.drop_first(), 0, events[0]);
        assert(events.drop_first().insert(0, events[0]) =~= events);
    }
}

/// Among events with the same timestamp, the one inserted last is answered
/// first: the event inserted first stands behind every later event that is
/// at least as new as it, and in front of every strictly older one.
pub proof fn lemma_earliest_insertion_trails_ties(events: Seq<EventView>)
    requires
        events.len() > 0,
    ensures
        ({
            let rest = newest_first(events.drop_first());
            let at = place_index(rest, events[0]) as int;
            &&& 0 <= at <= rest.len()
            &&& newest_first(events) == rest.insert(at, events[0])
            &&& forall|i: int| 0 <= i < at ==> !newer(events[0], #[trigger] rest[i])
            &&& forall|i: int| at <= i < rest.len() ==> newer(events[0], #[trigger] rest[i])
        }),
{
    let rest = newest_first(events.drop_first());
    let at = place_index(rest, events[0]) as int;
    lemma_place_index_bounds(rest, events[0]);
    lemma_newest_first_descending(events.drop_first());
    assert forall|i: int| at <= i < rest.len() implies newer(events[0], #[trigger] rest[i]) by {
        if i > at {
            // rest[i] is no newer than rest[at], which is strictly older
            assert(!newer(rest[i], rest[at]));
            let ts_first = encode_utf8(events[0].timestamp);
            let ts_at = encode_utf8(rest[at].timestamp);
            let ts_i = encode_utf8(rest[i].timestamp);
            lemma_before_total(ts_i, ts_at);
            if bytes_before(ts_i, ts_at) {
                lemma_before_transitive(ts_i, ts_at, ts_first);
            }
        }
    }
}

// ---------------------------------------------------------------------------
// The ledger
// ---------------------------------------------------------------------------

/// The provenance ledger.
///
/// Events are immutable once appended: there is no update, only append and
/// clearing the whole ledger.
pub struct Database {
    events: Vec<ProvenanceEvent>,
    human_characters: usize,
    ai_characters: usize,
    cited_characters: usize,
}

impl View for Database {
    type V = Seq<EventView>;

    /// The events of the ledger in insertion order. The event at index `i`
    /// has the identifier `i + 1`.
    closed spec fn view(&self) -> Seq<EventView> {
        event_views(self.events@)
    }
}

/// What `insert_event` answers for a ledger holding `events`: the identifier
/// of the new event, or why it was refused.
pub open spec fn insertion_outcome(events: Seq<EventView>, event: EventView) -> Result<
    int,
    LedgerError,
> {
    if kind_of(event.event_type) is None {
        Err(LedgerError::InvalidEventKind)
    } else if !crate::crypto_utils::is_digest_text(event.text_hash) {
        Err(LedgerError::InvalidDigest)
    } else if events.len() >= i64::MAX || total_characters(events) + event.span_length
        > usize::MAX {
        Err(LedgerError::CapacityExceeded)
    } else {
        Ok(events.len() as int + 1)
    }
}

/// The filter that an optional event type stands for.
pub open spec fn filter_view(event_type: Option<String>) -> Option<Seq<char>> {
    match event_type {
        Some(text) => Some(text@),
        None => None,
    }
}

/// The limit that an optional count stands for.
pub open spec fn limit_view(limit: Option<u32>) -> Option<nat> {
    match limit {
        Some(n) => Some(n as nat),
        None => None,
    }
}

fn is_newer(a: &ProvenanceEvent, b: &ProvenanceEvent) -> (r: bool)
    ensures
        r == newer(a@, b@),
{
    is_before(b.timestamp.as_str().as_bytes(), a.timestamp.as_str().as_bytes())
}

fn find_place(sorted: &Vec<ProvenanceEvent>, event: &ProvenanceEvent) -> (at: usize)
    requires
        descending(event_views(sorted@)),
    ensures
        at == place_index(event_views(sorted@), event@),
        at <= sorted.len(),
{
    let ghost views = event_views(sorted@);
    let mut at: usize = sorted.len();
    while at > 0 && is_newer(event, &sorted[at - 1])
        invariant
            at <= sorted.len(),
            views == event_views(sorted@),
            forall|j: int| at <= j < views.len() ==> newer(event@, #[trigger] views[j]),
        decreases at,
    {
        at -= 1;
    }
    proof {
        lemma_place_index_is(views, event@, at as int);
    }
    at
}

impl Database {
    /// The ledger is consistent: every event is one it accepts, and the
    /// character totals it keeps are those of its events.
    pub closed spec fn wf(&self) -> bool {
        &&& all_valid(self@)
        &&& self.human_characters == kind_total(self@, EventKind::Human)
        &&& self.ai_characters == kind_total(self@, EventKind::Ai)
        &&& self.cited_characters == kind_total(self@, EventKind::Cited)
        &&& total_characters(self@) <= usize::MAX
    }

    /// What consistency means to a caller: the ledger holds only events that
    /// it accepts, each with a digest and never with plain text, and the
    /// characters of all its events can be counted in a `usize`.
    pub proof fn lemma_consistent(&self)
        requires
            self.wf(),
        ensures
            all_valid(self@),
            total_characters(self@) <= usize::MAX,
    {
    }

    /// An empty ledger.
    pub fn new() -> (db: Database)
        ensures
            db.wf(),
            db@ == Seq::<EventView>::empty(),
    {
        let db = Database {
            events: Vec::new(),
            human_characters: 0,
            ai_characters: 0,
            cited_characters: 0,
        };
        proof {
            assert(db@ =~= Seq::<EventView>::empty());
        }
        db
    }

    /// The number of events in the ledger.
    pub fn len(&self) -> (n: usize)
        ensures
            n == self@.len(),
    {
        self.events.len()
    }

    /// Appends an event and answers with its identifier.
    ///
    /// Identifiers count up from 1 in insertion order. An event whose type
    /// names no kind, or whose hash is not a digest, is refused and the
    /// ledger stays as it was.
    pub fn insert_event(&mut self, event: ProvenanceEvent) -> (r: Result<
        EventResponse,
        LedgerError,
    >)
        requires
            old(self).wf(),
        ensures
            final(self).wf(),
            match r {
                Ok(response) => {
                    &&& insertion_outcome(old(self)@, event@) == Ok::<int, LedgerError>(
                        response.id as int,
                    )
                    &&& response.text_hash@ == event@.text_hash
                    &&& final(self)@ == old(self)@.push(event@)
                },
                Err(e) => {
                    &&& insertion_outcome(old(self)@, event@) == Err::<int, LedgerError>(e)
                    &&& final(self)@ == old(self)@
                },
            },
    {
        let kind = match event.kind() {
            Some(kind) => kind,
            None => { return Err(LedgerError::InvalidEventKind); },
        };
        if !is_digest(event.text_hash.as_str()) {
            return Err(LedgerError::InvalidDigest);
        }
        let count: u64 = self.events.len() as u64;
        if count >= 0x7fff_ffff_ffff_ffff {
            return Err(LedgerError::CapacityExceeded);
        }
        let total: usize = self.human_characters + self.ai_characters + self.cited_characters;
        if event.span_length > usize::MAX - total {
            return Err(LedgerError::CapacityExceeded);
        }
        let id: i64 = (count + 1) as i64;
        let text_hash = event.text_hash.clone();
        proof {
            let before = self@;
            lemma_select_push(before, event@, Some(EventKind::Human.name_text()));
            lemma_select_push(before, event@, Some(EventKind::Ai.name_text()));
            lemma_select_push(before, event@, Some(EventKind::Cited.name_text()));
            lemma_kind_filter(event@, EventKind::Human);
            lemma_kind_filter(event@, EventKind::Ai);
            lemma_kind_filter(event@, EventKind::Cited);
            assert(of_kind(before, EventKind::Human).push(event@).drop_last() =~= of_kind(
                before,
                EventKind::Human,
            ));
            assert(of_kind(before, EventKind::Ai).push(event@).drop_last() =~= of_kind(
                before,
                EventKind::Ai,
            ));
            assert(of_kind(before, EventKind::Cited).push(event@).drop_last() =~= of_kind(
                before,
                EventKind::Cited,
            ));
            assert(event_views(self.events@.push(event)) =~= before.push(event@));
        }
        match kind {
            EventKind::Human => {
                self.human_characters = self.human_characters + event.span_length;
            },
            EventKind::Ai => {
                self.ai_characters = self.ai_characters + event.span_length;
            },
            EventKind::Cited => {
                self.cited_characters = self.cited_characters + event.span_length;
            },
        }
        self.events.push(event);
        Ok(EventResponse { id, text_hash })
    }

    /// Answers the events of the ledger that carry the given type (all
    /// events where none is given), newest first, at most `limit` of them
    /// where a limit is given.
    pub fn get_events(&self, limit: Option<u32>, event_type: Option<String>) -> (found: Vec<
        ProvenanceEvent,
    >)
        ensures
            event_views(found@) == query_result(self@, filter_view(event_type), limit_view(limit)),
    {
        let ghost wanted = filter_view(event_type);
        let mut sorted: Vec<ProvenanceEvent> = Vec::new();
        let mut i: usize = self.events.len();
        proof {
            assert(self@.skip(i as int) =~= Seq::<EventView>::empty());
            assert(event_views(sorted@) =~= Seq::<EventView>::empty());
        }
        while i > 0
            invariant
                i <= self.events.len(),
                wanted == filter_view(event_type),
                event_views(sorted@) == newest_first(select_type(self@.skip(i as int), wanted)),
            decreases i,
        {
            i -= 1;
            let event = &self.events[i];
            let matches = match &event_type {
                Some(wanted_type) => text_equal(event.event_type.as_str(), wanted_type.as_str()),
                None => true,
            };
            proof {
                assert(self@.skip(i as int).drop_first() =~= self@.skip(i + 1));
                assert(self@.skip(i as int)[0] == event@);
                lemma_newest_first_descending(select_type(self@.skip(i + 1), wanted));
            }
            if matches {
                let at = find_place(&sorted, event);
                let ghost before = event_views(sorted@);
                let copy = event.clone();
                sorted.insert(at, copy);
                proof {
                    let tail = select_type(self@.skip(i + 1), wanted);
                    assert((seq![event@] + tail).drop_first() =~= tail);
                    assert(event_views(sorted@) =~= before.insert(at as int, event@));
                }
            }
        }
        proof {
            assert(self@.skip(0) =~= self@);
        }
        match limit {
            Some(n) => {
                if (n as usize) < sorted.len() {
                    let ghost all = event_views(sorted@);
                    sorted.truncate(n as usize);
                    proof {
                        assert(event_views(sorted@) =~= all.take(n as int));
                    }
                }
            },
            None => {},
        }
        sorted
    }

    /// The number of characters attributed to each kind.
    ///
    /// For every kind this is the sum of the span lengths of the events that
    /// `get_events` answers for that kind without a limit.
    pub fn aggregate(&self) -> (totals: CharacterTotals)
        requires
            self.wf(),
        ensures
            totals.human == kind_total(self@, EventKind::Human),
            totals.ai == kind_total(self@, EventKind::Ai),
            totals.cited == kind_total(self@, EventKind::Cited),
            totals.human + totals.ai + totals.cited <= usize::MAX,
    {
        CharacterTotals {
            human: self.human_characters,
            ai: self.ai_characters,
            cited: self.cited_characters,
        }
    }

    /// The manifest of the ledger with the default excerpt of the 50 most
    /// recent events.
    pub fn generate_manifest(&self) -> (manifest: crate::manifest::ManifestData)
        requires
            self.wf(),
        ensures
            manifest@ == crate::manifest::manifest_of(
                self@,
                crate::manifest::DEFAULT_EXCERPT_LIMIT as nat,
            ),
    {
        crate::manifest::build_manifest(self, crate::manifest::DEFAULT_EXCERPT_LIMIT)
    }

    /// Empties the ledger. Identifiers start again at 1.
    pub fn clear_events(&mut self)
        ensures
            final(self).wf(),
            final(self)@ == Seq::<EventView>::empty(),
    {
        self.events.clear();
        self.human_characters = 0;
        self.ai_characters = 0;
        self.cited_characters = 0;
        proof {
            assert(self@ =~= Seq::<EventView>::empty());
        }
    }

    /// The number of events of each kind.
    pub fn get_event_counts(&self) -> (counts: EventCounts)
        requires
            self.wf(),
        ensures
            counts.human == kind_count(self@, EventKind::Human),
            counts.ai == kind_count(self@, EventKind::Ai),
            counts.cited == kind_count(self@, EventKind::Cited),
            counts.human + counts.ai + counts.cited == self@.len(),
    {
        let mut counts = EventCounts { human: 0, ai: 0, cited: 0 };
        let mut i: usize = 0;
        proof {
            assert(self@.take(0) =~= Seq::<EventView>::empty());
        }
        while i < self.events.len()
            invariant
                i <= self.events.len(),
                all_valid(self@),
                counts.human == kind_count(self@.take(i as int), EventKind::Human),
                counts.ai == kind_count(self@.take(i as int), EventKind::Ai),
                counts.cited == kind_count(self@.take(i as int), EventKind::Cited),
                counts.human + counts.ai + counts.cited == i,
            decreases self.events.len() - i,
        {
            let kind = self.events[i].kind();
            proof {
                let event = self@[i as int];
                assert(event == self.events[i as int]@);
                assert(event_valid(event));
                assert(self@.take(i + 1) =~= self@.take(i as int).push(event));
                lemma_select_push(self@.take(i as int), event, Some(EventKind::Human.name_text()));
                lemma_select_push(self@.take(i as int), event, Some(EventKind::Ai.name_text()));
                lemma_select_push(self@.take(i as int), event, Some(EventKind::Cited.name_text()));
                lemma_kind_filter(event, EventKind::Human);
                lemma_kind_filter(event, EventKind::Ai);
                lemma_kind_filter(event, EventKind::Cited);
            }
            match kind {
                Some(EventKind::Human) => {
                    counts.human = counts.human + 1;
                },
                Some(EventKind::Ai) => {
                    counts.ai = counts.ai + 1;
                },
                Some(EventKind::Cited) => {
                    counts.cited = counts.cited + 1;
                },
                None => {},
            }
            i += 1;
        }
        proof {
            assert(self@.take(self.events.len() as int) =~= self@);
        }
        counts
    }
}

/// Aggregation agrees with retrieval: the total of a kind is the sum of the
/// span lengths of the events that an unlimited query for that kind answers.
pub proof fn lemma_aggregate_matches_query(events: Seq<EventView>, kind: EventKind)
    ensures
        kind_total(events, kind) == span_sum(query_result(events, Some(kind.name_text()), None)),
{
    lemma_newest_first_span_sum(select_type(events, Some(kind.name_text())));
}

/// A query for one event answers the newest: where any event passes the
/// filter, a query with the limit 1 answers exactly one event, and no event
/// that passes the filter is strictly newer than it.
pub proof fn lemma_limit_one_answers_newest(events: Seq<EventView>, event_type: Option<Seq<char>>)
    requires
        select_type(events, event_type).len() > 0,
    ensures
        query_result(events, event_type, Some(1)).len() == 1,
        forall|i: int|
            0 <= i < select_type(events, event_type).len() ==> !newer(
                #[trigger] select_type(events, event_type)[i],
                query_result(events, event_type, Some(1))[0],
            ),
{
    let selected = select_type(events, event_type);
    let sorted = newest_first(selected);
    lemma_newest_first_permutes(selected);
    lemma_newest_first_descending(selected);
    assert forall|i: int| 0 <= i < selected.len() implies !newer(
        #[trigger] selected[i],
        query_result(events, event_type, Some(1))[0],
    ) by {
        // every selected event stands somewhere in the answer
        selected.to_multiset_ensures();
        sorted.to_multiset_ensures();
        assert(selected.contains(selected[i]));
        assert(selected.to_multiset().count(selected[i]) > 0);
        assert(sorted.to_multiset().count(selected[i]) > 0);
        assert(sorted.contains(selected[i]));
        let at = choose|at: int| 0 <= at < sorted.len() && sorted[at] == selected[i];
        if at == 0 {
            lemma_before_irreflexive(encode_utf8(sorted[0].timestamp));
        } else {
            assert(!newer(sorted[at], sorted[0]));
        }
    }
}

/// A limit only cuts the answer short: a limited query answers the first
/// events of the unlimited one, and never more than the limit.
pub proof fn lemma_limit_is_a_prefix(
    events: Seq<EventView>,
    event_type: Option<Seq<char>>,
    limit: nat,
)
    ensures
        query_result(events, event_type, Some(limit)).len() <= limit,
        query_result(events, event_type, Some(limit)).is_prefix_of(
            query_result(events, event_type, None),
        ),
{
    let all = query_result(events, event_type, None);
    if limit < all.len() {
        assert(all.take(limit as int).is_prefix_of(all));
    } else {
        assert(all.is_prefix_of(all));
    }
}

} // verus!
