//! The manifest: a point-in-time summary of a ledger, with the share of
//! each kind of origin and a bounded excerpt of recent events.
//!
//! Shares are fixed-point numbers, counted in millionths of a percent and
//! rounded down. A ledger without characters has no shares to report: all
//! three are zero.

use crate::database::{
    kind_total, query_result, total_characters, CharacterTotals, Database,
};
use crate::event::{event_views, EventKind, EventView, ProvenanceEvent};
use vstd::prelude::*;

verus! {

/// Millionths of a percent in one percent.
pub const PERCENT_SCALE: u32 = 1_000_000;

/// One hundred percent, in millionths of a percent.
pub const FULL_SHARE: u32 = 100_000_000;

/// The number of recent events that a manifest carries unless told
/// otherwise.
pub const DEFAULT_EXCERPT_LIMIT: u32 = 50;

/// A share between 0 % and 100 %, held exactly as a whole number of
/// millionths of a percent.
#[derive(Clone, Copy, Debug, PartialEq, Eq, Structural)]
pub struct Percentage {
    millionths: u32,
}

impl View for Percentage {
    type V = nat;

    /// The share in millionths of a percent.
    closed spec fn view(&self) -> nat {
        self.millionths as nat
    }
}

/// The share of `part` in `whole`, in millionths of a percent, rounded down.
/// Nothing has a share in an empty whole.
pub open spec fn share(part: nat, whole: nat) -> nat {
    if whole == 0 {
        0
    } else {
        ((part * FULL_SHARE) / (whole as int)) as nat
    }
}

/// A part never has a share of more than one hundred percent.
pub proof fn lemma_share_bounded(part: nat, whole: nat)
    requires
        part <= whole,
    ensures
        share(part, whole) <= FULL_SHARE,
{
    if whole > 0 {
        let full = FULL_SHARE as int;
        assert((part * full) / (whole as int) <= full) by (nonlinear_arith)
            requires
                0 <= part <= whole,
                whole > 0,
                full >= 0,
        ;
    }
}

/// The whole of a non-empty corpus has a share of exactly one hundred
/// percent, and nothing has a share of zero.
pub proof fn lemma_share_of_all_and_nothing(whole: nat)
    requires
        whole > 0,
    ensures
        share(whole, whole) == FULL_SHARE,
        share(0, whole) == 0,
{
    let full = FULL_SHARE as int;
    assert((whole * full) / (whole as int) == full) by (nonlinear_arith)
        requires
            whole > 0,
            full >= 0,
    ;
    assert((0 * full) / (whole as int) == 0) by (nonlinear_arith)
        requires
            whole > 0,
    ;
}

/// The shares of three parts that make up a non-empty whole add up to one
/// hundred percent but for rounding: each share is rounded down, so at most
/// two millionths of a percent are missing.
pub proof fn lemma_shares_add_up(human: nat, ai: nat, cited: nat)
    requires
        human + ai + cited > 0,
    ensures
        ({
            let whole = human + ai + cited;
            let sum = share(human, whole) + share(ai, whole) + share(cited, whole);
            FULL_SHARE - 2 <= sum <= FULL_SHARE
        }),
{
    let whole = (human + ai + cited) as int;
    let full = FULL_SHARE as int;
    let qh = (human * full) / whole;
    let qa = (ai * full) / whole;
    let qc = (cited * full) / whole;
    let rh = (human * full) % whole;
    let ra = (ai * full) % whole;
    let rc = (cited * full) % whole;
    vstd::arithmetic::div_mod::lemma_fundamental_div_mod(human * full, whole);
    vstd::arithmetic::div_mod::lemma_fundamental_div_mod(ai * full, whole);
    vstd::arithmetic::div_mod::lemma_fundamental_div_mod(cited * full, whole);
    vstd::arithmetic::div_mod::lemma_mod_bound(human * full, whole);
    vstd::arithmetic::div_mod::lemma_mod_bound(ai * full, whole);
    vstd::arithmetic::div_mod::lemma_mod_bound(cited * full, whole);
    assert(FULL_SHARE - 2 <= qh + qa + qc <= FULL_SHARE) by (nonlinear_arith)
        requires
            whole > 0,
            whole == human + ai + cited,
            full == FULL_SHARE,
            human * full == whole * qh + rh,
            ai * full == whole * qa + ra,
            cited * full == whole * qc + rc,
            0 <= rh < whole,
            0 <= ra < whole,
            0 <= rc < whole,
    ;
}

impl Percentage {
    #[verifier::type_invariant]
    spec fn in_range(self) -> bool {
        self.millionths <= FULL_SHARE
    }

    /// No share at all.
    pub fn zero() -> (p: Percentage)
        ensures
            p@ == 0,
    {
        Percentage { millionths: 0 }
    }

    /// The share that is `millionths` millionths of a percent; `None` above
    /// one hundred percent.
    pub fn from_millionths(millionths: u32) -> (p: Option<Percentage>)
        ensures
            match p {
                Some(share) => millionths <= FULL_SHARE && share@ == millionths,
                None => millionths > FULL_SHARE,
            },
    {
        if millionths <= FULL_SHARE {
            Some(Percentage { millionths })
        } else {
            None
        }
    }

    /// The share of `part` in `whole`, rounded down to a millionth of a
    /// percent.
    pub fn of(part: usize, whole: usize) -> (p: Percentage)
        requires
            part <= whole,
        ensures
            p@ == share(part as nat, whole as nat),
    {
        if whole == 0 {
            return Percentage { millionths: 0 };
        }
        proof {
            lemma_share_bounded(part as nat, whole as nat);
            assert(part * FULL_SHARE <= usize::MAX * FULL_SHARE) by (nonlinear_arith)
                requires
                    part <= usize::MAX,
            ;
        }
        let scaled: u128 = (part as u128) * (FULL_SHARE as u128);
        let millionths: u32 = (scaled / (whole as u128)) as u32;
        Percentage { millionths }
    }

    /// The share in millionths of a percent.
    pub fn millionths(&self) -> (n: u32)
        ensures
            n == self@,
            n <= FULL_SHARE,
    {
        proof {
            use_type_invariant(self);
        }
        self.millionths
    }

    /// The whole percents of the share, from 0 to 100.
    pub fn whole_percent(&self) -> (n: u32)
        ensures
            n == self@ / (PERCENT_SCALE as nat),
            n <= 100,
    {
        proof {
            use_type_invariant(self);
        }
        self.millionths / PERCENT_SCALE
    }

    /// What is left of the share beyond its whole percents, in millionths of
    /// a percent.
    pub fn fraction(&self) -> (n: u32)
        ensures
            n == self@ % (PERCENT_SCALE as nat),
            n < PERCENT_SCALE,
    {
        self.millionths % PERCENT_SCALE
    }
}

/// A point-in-time summary of a ledger.
///
/// The excerpt of events is there for audit only. It is not exhaustive: the
/// shares and the total are computed from the whole ledger, not from the
/// excerpt, and cannot be recomputed from it.
#[derive(Debug, PartialEq, Eq)]
pub struct ManifestData {
    /// Share of the characters typed by people.
    pub human_percentage: Percentage,
    /// Share of the characters produced by an AI assistant.
    pub ai_percentage: Percentage,
    /// Share of the characters quoted from external sources.
    pub cited_percentage: Percentage,
    /// Sum of the span lengths of all events of the ledger.
    pub total_characters: usize,
    /// The most recent events, newest first. Advisory only.
    pub events: Vec<ProvenanceEvent>,
}

/// The mathematical value of a `ManifestData`.
pub struct ManifestView {
    pub human_percentage: nat,
    pub ai_percentage: nat,
    pub cited_percentage: nat,
    pub total_characters: nat,
    pub events: Seq<EventView>,
}

impl View for ManifestData {
    type V = ManifestView;

    open spec fn view(&self) -> ManifestView {
        ManifestView {
            human_percentage: self.human_percentage@,
            ai_percentage: self.ai_percentage@,
            cited_percentage: self.cited_percentage@,
            total_characters: self.total_characters as nat,
            events: event_views(self.events@),
        }
    }
}

/// Copies a list of events.
pub fn clone_events(events: &Vec<ProvenanceEvent>) -> (copy: Vec<ProvenanceEvent>)
    ensures
        event_views(copy@) == event_views(events@),
{
    let mut copy: Vec<ProvenanceEvent> = Vec::new();
    let mut i: usize = 0;
    while i < events.len()
        invariant
            i <= events.len(),
            copy@.len() == i,
            forall|k: int| 0 <= k < i ==> (#[trigger] copy@[k])@ == events@[k]@,
        decreases events.len() - i,
    {
        copy.push(events[i].clone());
        i += 1;
    }
    proof {
        assert(event_views(copy@) =~= event_views(events@));
    }
    copy
}

impl Clone for ManifestData {
    fn clone(&self) -> (copy: Self)
        ensures
            copy@ == self@,
    {
        ManifestData {
            human_percentage: self.human_percentage,
            ai_percentage: self.ai_percentage,
            cited_percentage: self.cited_percentage,
            total_characters: self.total_characters,
            events: clone_events(&self.events),
        }
    }
}

/// The manifest of a ledger that holds `events`, with an excerpt of at most
/// `excerpt_limit` events.
pub open spec fn manifest_of(events: Seq<EventView>, excerpt_limit: nat) -> ManifestView {
    let total = total_characters(events);
    ManifestView {
        human_percentage: share(kind_total(events, EventKind::Human), total),
        ai_percentage: share(kind_total(events, EventKind::Ai), total),
        cited_percentage: share(kind_total(events, EventKind::Cited), total),
        total_characters: total,
        events: query_result(events, None, Some(excerpt_limit)),
    }
}

/// Builds the manifest of a ledger: the shares and the total from all its
/// events, and the `excerpt_limit` most recent events as excerpt.
pub fn build_manifest(db: &Database, excerpt_limit: u32) -> (manifest: ManifestData)
    requires
        db.wf(),
    ensures
        manifest@ == manifest_of(db@, excerpt_limit as nat),
{
    let totals: CharacterTotals = db.aggregate();
    let total: usize = totals.human + totals.ai + totals.cited;
    let events = db.get_events(Some(excerpt_limit), None);
    ManifestData {
        human_percentage: Percentage::of(totals.human, total),
        ai_percentage: Percentage::of(totals.ai, total),
        cited_percentage: Percentage::of(totals.cited, total),
        total_characters: total,
        events,
    }
}

/// The manifest of an empty ledger is the fixed zero-corpus default: every
/// share is zero, the total is zero and the excerpt is empty.
pub proof fn lemma_empty_ledger_manifest(excerpt_limit: nat)
    ensures
        manifest_of(Seq::empty(), excerpt_limit) == (ManifestView {
            human_percentage: 0,
            ai_percentage: 0,
            cited_percentage: 0,
            total_characters: 0,
            events: Seq::empty(),
        }),
{
    let none = Seq::<EventView>::empty();
    assert(query_result(none, None, Some(excerpt_limit)) =~= none);
}

/// In every manifest each share lies between 0 % and 100 %, and the three
/// shares of a non-empty corpus add up to 100 % but for at most two
/// millionths of a percent lost to rounding.
pub proof fn lemma_manifest_shares(events: Seq<EventView>, excerpt_limit: nat)
    ensures
        ({
            let m = manifest_of(events, excerpt_limit);
            &&& m.human_percentage <= FULL_SHARE
            &&& m.ai_percentage <= FULL_SHARE
            &&& m.cited_percentage <= FULL_SHARE
            &&& m.total_characters == 0 ==> m.human_percentage + m.ai_percentage
                + m.cited_percentage == 0
            &&& m.total_characters > 0 ==> FULL_SHARE - 2 <= m.human_percentage + m.ai_percentage
                + m.cited_percentage <= FULL_SHARE
        }),
{
    let human = kind_total(events, EventKind::Human);
    let ai = kind_total(events, EventKind::Ai);
    let cited = kind_total(events, EventKind::Cited);
    lemma_share_bounded(human, human + ai + cited);
    lemma_share_bounded(ai, human + ai + cited);
    lemma_share_bounded(cited, human + ai + cited);
    if human + ai + cited > 0 {
        lemma_shares_add_up(human, ai, cited);
    }
}

} // verus!
