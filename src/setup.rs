//! Validation of an event's texts, tiers and timeline.
use vstd::prelude::*;

use crate::types::{Coin, ContractError, EventSegment, GuestDetails};

verus! {

/// Longest title, description, tier label or segment description, in bytes.
pub const CHARACTER_LIMIT: usize = 128;

/// Length of a text in bytes, as UTF-8.
pub open spec fn byte_len(s: Seq<char>) -> nat {
    vstd::utf8::encode_utf8(s).len()
}

/// Whether two entries of a price list name the same currency.
pub open spec fn has_duplicate_denom(cost: Seq<Coin>) -> bool {
    exists|a: int, b: int| 0 <= a < b < cost.len() && cost[a].denom@ == cost[b].denom@
}

/// What is wrong with tier `i`, given the tiers before it.
pub open spec fn tier_error(tiers: Seq<GuestDetails>, i: int) -> Option<ContractError> {
    let t = tiers[i];
    if exists|k: int| 0 <= k < i && tiers[k].guest_weight == t.guest_weight {
        Some(ContractError::DuplicateGuestWeight)
    } else if byte_len(t.guest_type@) > CHARACTER_LIMIT || t.max_ticket_limit
        > t.total_ticket_limit {
        Some(ContractError::BadGuestDetailParams)
    } else if has_duplicate_denom(t.ticket_cost@) {
        Some(ContractError::DuplicateFeeDenom)
    } else {
        None
    }
}

/// The first fault among the first `n` tiers.
pub open spec fn tiers_error_upto(tiers: Seq<GuestDetails>, n: int) -> Option<ContractError>
    decreases n,
{
    if n <= 0 {
        None
    } else {
        match tiers_error_upto(tiers, n - 1) {
            Some(e) => Some(e),
            None => tier_error(tiers, n - 1),
        }
    }
}

/// The first fault of a tier list.
pub open spec fn tiers_error(tiers: Seq<GuestDetails>) -> Option<ContractError> {
    tiers_error_upto(tiers, tiers.len() as int)
}

/// What is wrong with segment `i`, given the segment before it.
pub open spec fn segment_error(segs: Seq<EventSegment>, i: int) -> Option<ContractError> {
    let s = segs[i];
    if s.start > s.end {
        Some(ContractError::InvalidEventDates)
    } else if byte_len(s.stage_description@) > CHARACTER_LIMIT {
        Some(ContractError::BadEventDescriptionLength)
    } else if i > 0 && segs[i - 1].end > s.start {
        Some(ContractError::OverlappingEventDates)
    } else {
        None
    }
}

/// The first fault among the first `n` segments.
pub open spec fn timeline_error_upto(segs: Seq<EventSegment>, n: int) -> Option<ContractError>
    decreases n,
{
    if n <= 0 {
        None
    } else {
        match timeline_error_upto(segs, n - 1) {
            Some(e) => Some(e),
            None => segment_error(segs, n - 1),
        }
    }
}

/// The first fault of a timeline.
pub open spec fn timeline_error(segs: Seq<EventSegment>) -> Option<ContractError> {
    timeline_error_upto(segs, segs.len() as int)
}

/// The first fault of an event's setup: its texts, then its tiers, then its timeline.
pub open spec fn setup_error(
    title: Seq<char>,
    description: Seq<char>,
    tiers: Seq<GuestDetails>,
    segs: Seq<EventSegment>,
) -> Option<ContractError> {
    if byte_len(title) > CHARACTER_LIMIT || byte_len(description) > CHARACTER_LIMIT {
        Some(ContractError::BadEventTitleOrDescription)
    } else if tiers_error(tiers) is Some {
        tiers_error(tiers)
    } else {
        timeline_error(segs)
    }
}

/// The result that a validation with first fault `e` gives.
pub open spec fn result_of(e: Option<ContractError>) -> Result<(), ContractError> {
    match e {
        Some(err) => Err(err),
        None => Ok(()),
    }
}

/// Whether segment `i` is well formed and does not overlap the one before it.
pub open spec fn segment_in_order(segs: Seq<EventSegment>, i: int) -> bool {
    &&& segs[i].start <= segs[i].end
    &&& byte_len(segs[i].stage_description@) <= CHARACTER_LIMIT
    &&& (i > 0 ==> segs[i - 1].end <= segs[i].start)
}

proof fn lemma_timeline_error_upto(segs: Seq<EventSegment>, n: int)
    requires
        0 <= n <= segs.len(),
    ensures
        timeline_error_upto(segs, n) is None <==> forall|i: int|
            0 <= i < n ==> #[trigger] segment_in_order(segs, i),
    decreases n,
{
    if n > 0 {
        lemma_timeline_error_upto(segs, n - 1);
        if timeline_error_upto(segs, n) is None {
            assert forall|i: int| 0 <= i < n implies #[trigger] segment_in_order(segs, i) by {
                if i < n - 1 {
                } else {
                    assert(segment_error(segs, n - 1) is None);
                }
            }
        }
        if forall|i: int| 0 <= i < n ==> #[trigger] segment_in_order(segs, i) {
            assert(segment_in_order(segs, n - 1));
            assert forall|i: int| 0 <= i < n - 1 implies #[trigger] segment_in_order(segs, i) by {
                assert(segment_in_order(segs, i));
            }
        }
    }
}

/// A timeline is accepted exactly when every segment starts no later than
/// it ends, has a description within the limit, and starts no earlier than
/// the segment before it ends; gaps between segments are allowed.
pub proof fn timeline_accepted_iff_in_order(segs: Seq<EventSegment>)
    ensures
        timeline_error(segs) is None <==> forall|i: int|
            0 <= i < segs.len() ==> #[trigger] segment_in_order(segs, i),
{
    lemma_timeline_error_upto(segs, segs.len() as int);
}

/// Setup is refused whenever two consecutive segments overlap (the earlier
/// one ends after the later one starts), whatever the length of the timeline.
pub proof fn overlapping_segments_refused(
    title: Seq<char>,
    description: Seq<char>,
    tiers: Seq<GuestDetails>,
    segs: Seq<EventSegment>,
    i: int,
)
    requires
        0 < i < segs.len(),
        segs[i - 1].end > segs[i].start,
    ensures
        setup_error(title, description, tiers, segs) is Some,
{
    timeline_accepted_iff_in_order(segs);
    assert(!segment_in_order(segs, i));
}

/// Setup with valid texts and tiers is accepted when every segment is well
/// formed and no two consecutive segments overlap.
pub proof fn in_order_timeline_accepted(
    title: Seq<char>,
    description: Seq<char>,
    tiers: Seq<GuestDetails>,
    segs: Seq<EventSegment>,
)
    requires
        byte_len(title) <= CHARACTER_LIMIT,
        byte_len(description) <= CHARACTER_LIMIT,
        tiers_error(tiers) is None,
        forall|i: int| 0 <= i < segs.len() ==> #[trigger] segment_in_order(segs, i),
    ensures
        setup_error(title, description, tiers, segs) is None,
{
    timeline_accepted_iff_in_order(segs);
}

/// Length of a text in bytes.
pub fn text_byte_len(s: &String) -> (r: usize)
    ensures
        r == byte_len(s@),
{
    s.as_str().as_bytes().len()
}

/// Whether two entries of a price list name the same currency.
pub fn duplicate_denom(cost: &Vec<Coin>) -> (r: bool)
    ensures
        r == has_duplicate_denom(cost@),
{
    let mut j: usize = 0;
    while j < cost.len()
        invariant
            j <= cost@.len(),
            forall|a: int, b: int| 0 <= a < b < j ==> cost@[a].denom@ != cost@[b].denom@,
        decreases cost@.len() - j,
    {
        let mut k: usize = 0;
        while k < j
            invariant
                j < cost@.len(),
                k <= j,
                forall|a: int| 0 <= a < k ==> cost@[a].denom@ != cost@[j as int].denom@,
            decreases j - k,
        {
            if cost[k].denom == cost[j].denom {
                return true;
            }
            k = k + 1;
        }
        j = j + 1;
    }
    false
}

/// Checks a tier list: weights unique, each label within the limit, each
/// per-wallet cap within the tier's capacity, each price list free of
/// repeated currencies. The first faulty tier decides the error.
pub fn validate_guest_details(tiers: &Vec<GuestDetails>) -> (r: Result<(), ContractError>)
    ensures
        r == result_of(tiers_error(tiers@)),
{
    let mut i: usize = 0;
    while i < tiers.len()
        invariant
            i <= tiers@.len(),
            tiers_error_upto(tiers@, i as int) is None,
        decreases tiers@.len() - i,
    {
        let t = &tiers[i];
        let mut k: usize = 0;
        while k < i
            invariant
                i < tiers@.len(),
                tiers_error_upto(tiers@, i as int) is None,
                t == tiers@[i as int],
                k <= i,
                forall|a: int| 0 <= a < k ==> tiers@[a].guest_weight != t.guest_weight,
            decreases i - k,
        {
            if tiers[k].guest_weight == t.guest_weight {
                proof {
                    assert(0 <= k < i && tiers@[k as int].guest_weight == tiers@[i as int].guest_weight);
                    assert(tier_error(tiers@, i as int) == Some(ContractError::DuplicateGuestWeight));
                    lemma_first_fault_stays_tiers(tiers@, i as int + 1);
                }
                return Err(ContractError::DuplicateGuestWeight);
            }
            k = k + 1;
        }
        if text_byte_len(&t.guest_type) > CHARACTER_LIMIT || t.max_ticket_limit
            > t.total_ticket_limit {
            proof {
                lemma_first_fault_stays_tiers(tiers@, i as int + 1);
            }
            return Err(ContractError::BadGuestDetailParams);
        }
        if duplicate_denom(&t.ticket_cost) {
            proof {
                lemma_first_fault_stays_tiers(tiers@, i as int + 1);
            }
            return Err(ContractError::DuplicateFeeDenom);
        }
        i = i + 1;
    }
    Ok(())
}

/// Once a fault is found among the first `n` tiers, it stays the first.
proof fn lemma_first_fault_stays_tiers(tiers: Seq<GuestDetails>, n: int)
    requires
        0 <= n <= tiers.len(),
    ensures
        tiers_error_upto(tiers, n) is Some ==> tiers_error(tiers) == tiers_error_upto(tiers, n),
    decreases tiers.len() - n,
{
    if n < tiers.len() {
        lemma_first_fault_stays_tiers(tiers, n + 1);
    }
}

/// Once a fault is found among the first `n` segments, it stays the first.
proof fn lemma_first_fault_stays_timeline(segs: Seq<EventSegment>, n: int)
    requires
        0 <= n <= segs.len(),
    ensures
        timeline_error_upto(segs, n) is Some ==> timeline_error(segs) == timeline_error_upto(
            segs,
            n,
        ),
    decreases segs.len() - n,
{
    if n < segs.len() {
        lemma_first_fault_stays_timeline(segs, n + 1);
    }
}

/// Checks a timeline: each segment starts no later than it ends, its
/// description is within the limit, and it starts no earlier than the
/// previous one ends. The first faulty segment decides the error.
pub fn validate_event_timeline(segs: &Vec<EventSegment>) -> (r: Result<(), ContractError>)
    ensures
        r == result_of(timeline_error(segs@)),
{
    let mut i: usize = 0;
    while i < segs.len()
        invariant
            i <= segs@.len(),
            timeline_error_upto(segs@, i as int) is None,
        decreases segs@.len() - i,
    {
        let s = &segs[i];
        let fault = if s.start > s.end {
            Some(ContractError::InvalidEventDates)
        } else if text_byte_len(&s.stage_description) > CHARACTER_LIMIT {
            Some(ContractError::BadEventDescriptionLength)
        } else if i > 0 && segs[i - 1].end > s.start {
            Some(ContractError::OverlappingEventDates)
        } else {
            None
        };
        assert(fault == segment_error(segs@, i as int));
        if let Some(e) = fault {
            proof {
                lemma_first_fault_stays_timeline(segs@, i as int + 1);
            }
            return Err(e);
        }
        i = i + 1;
    }
    Ok(())
}

/// Checks an event's setup: title and description within the limit, then
/// the tiers, then the timeline; the first fault decides the error.
pub fn validate_setup(
    title: &String,
    description: &String,
    tiers: &Vec<GuestDetails>,
    segs: &Vec<EventSegment>,
) -> (r: Result<(), ContractError>)
    ensures
        r == result_of(setup_error(title@, description@, tiers@, segs@)),
{
    if text_byte_len(title) > CHARACTER_LIMIT || text_byte_len(description) > CHARACTER_LIMIT {
        return Err(ContractError::BadEventTitleOrDescription);
    }
    validate_guest_details(tiers)?;
    validate_event_timeline(segs)
}

} // verus!
