//! Check-in: access policies and write-once attendance.
use vstd::prelude::*;

use crate::ledger::{attendance_view, AttendanceRecord, EventLedger};
use crate::search::{find_tier, weight_index};
use crate::types::{ContractError, EventSegmentAccessType, GuestDetails};

verus! {

/// The segments a check-in marks under access policy `policy` when the
/// guest claims segments `claimed`, or why the claim is refused.
pub open spec fn checkin_targets(policy: EventSegmentAccessType, claimed: Seq<u64>) -> Result<
    Seq<u64>,
    ContractError,
> {
    match policy {
        EventSegmentAccessType::SingleSegment { id } => {
            if claimed.len() > 0 && forall|k: int| 0 <= k < claimed.len() ==> claimed[k] == id {
                Ok(seq![id])
            } else {
                Err(ContractError::IncorrectEventSegmentId)
            }
        },
        EventSegmentAccessType::AnyOfSpecificSegments { ids } => {
            if forall|k: int| 0 <= k < claimed.len() ==> ids@.contains(claimed[k]) {
                Ok(claimed)
            } else {
                Err(ContractError::IncorrectEventSegmentId)
            }
        },
        EventSegmentAccessType::AllOfSpecificSegments { ids } => Ok(ids@),
    }
}

/// Marks `a` as attending each of `targets`, in order; marking a pair that
/// is already recorded refuses the whole check-in.
pub open spec fn mark_all(att: Seq<(Seq<char>, u64)>, a: Seq<char>, targets: Seq<u64>) -> Result<
    Seq<(Seq<char>, u64)>,
    ContractError,
>
    decreases targets.len(),
{
    if targets.len() == 0 {
        Ok(att)
    } else {
        match mark_all(att, a, targets.drop_last()) {
            Err(e) => Err(e),
            Ok(m) => if m.contains((a, targets.last())) {
                Err(ContractError::GuestAlreadyCheckedIn)
            } else {
                Ok(m.push((a, targets.last())))
            },
        }
    }
}

/// A check-in: the caller must be an usher, the signature must hold, the
/// ticket address must be on the guest roster at the weight of a known tier,
/// and the tier's access policy decides which segments are marked.
pub open spec fn checkin_result(
    tiers: Seq<GuestDetails>,
    att: Seq<(Seq<char>, u64)>,
    is_usher: bool,
    signature_valid: bool,
    ticket_addr: Seq<char>,
    claimed: Seq<u64>,
    guest_weight: Option<u64>,
) -> Result<Seq<(Seq<char>, u64)>, ContractError> {
    if !is_usher {
        Err(ContractError::NotAnEventUsher)
    } else if !signature_valid {
        Err(ContractError::CheckinVerificationFailed)
    } else {
        match guest_weight {
            None => Err(ContractError::GuestTypeIncorrect),
            Some(w) => {
                let idx = weight_index(tiers, w);
                if idx < 0 {
                    Err(ContractError::GuestTypeIncorrect)
                } else {
                    match checkin_targets(tiers[idx].event_segment_access, claimed) {
                        Err(e) => Err(e),
                        Ok(targets) => mark_all(att, ticket_addr, targets),
                    }
                }
            },
        }
    }
}

/// Whether `a` is recorded as attending segment `seg`.
pub fn is_checked_in(attendance: &Vec<AttendanceRecord>, a: &String, seg: u64) -> (r: bool)
    ensures
        r == attendance_view(attendance@).contains((a@, seg)),
{
    let mut i: usize = 0;
    while i < attendance.len()
        invariant
            i <= attendance@.len(),
            forall|k: int| 0 <= k < i ==> attendance_view(attendance@)[k] != (a@, seg),
        decreases attendance@.len() - i,
    {
        assert(attendance_view(attendance@)[i as int] == (
            attendance@[i as int].ticket_addr@,
            attendance@[i as int].event_segment_id,
        ));
        if attendance[i].ticket_addr == *a && attendance[i].event_segment_id == seg {
            return true;
        }
        i = i + 1;
    }
    false
}

/// Records that `ticket_addr` attends segment `event_segment_id`; a pair
/// already recorded is refused and the records stay as they are.
pub fn update_attendance_record(
    attendance: &mut Vec<AttendanceRecord>,
    ticket_addr: &String,
    event_segment_id: u64,
) -> (r: Result<bool, ContractError>)
    ensures
        attendance_view(old(attendance)@).contains((ticket_addr@, event_segment_id)) ==> {
            &&& r == Err::<bool, ContractError>(ContractError::GuestAlreadyCheckedIn)
            &&& final(attendance)@ == old(attendance)@
        },
        !attendance_view(old(attendance)@).contains((ticket_addr@, event_segment_id)) ==> {
            &&& r == Ok::<bool, ContractError>(true)
            &&& final(attendance)@.len() == old(attendance)@.len() + 1
            &&& final(attendance)@.subrange(0, old(attendance)@.len() as int) == old(attendance)@
            &&& attendance_view(final(attendance)@) == attendance_view(old(attendance)@).push(
                (ticket_addr@, event_segment_id),
            )
        },
{
    if is_checked_in(attendance, ticket_addr, event_segment_id) {
        return Err(ContractError::GuestAlreadyCheckedIn);
    }
    let ghost prev = attendance@;
    let x = AttendanceRecord { ticket_addr: ticket_addr.clone(), event_segment_id };
    attendance.push(x);
    assert(attendance@ =~= prev.push(x));
    assert(attendance_view(attendance@) =~= attendance_view(prev).push((ticket_addr@, event_segment_id)));
    assert(attendance@.subrange(0, prev.len() as int) =~= prev);
    Ok(true)
}

/// Whether `x` is among `v`.
fn contains_u64(v: &Vec<u64>, x: u64) -> (r: bool)
    ensures
        r == v@.contains(x),
{
    let mut i: usize = 0;
    while i < v.len()
        invariant
            i <= v@.len(),
            forall|k: int| 0 <= k < i ==> v@[k] != x,
        decreases v@.len() - i,
    {
        if v[i] == x {
            return true;
        }
        i = i + 1;
    }
    false
}

/// Marks `a` as attending each of `targets`; on a refusal the records are
/// put back as they were.
fn mark_targets(attendance: &mut Vec<AttendanceRecord>, a: &String, targets: &Vec<u64>) -> (r:
    Result<(), ContractError>)
    ensures
        match mark_all(attendance_view(old(attendance)@), a@, targets@) {
            Ok(m) => r is Ok && attendance_view(final(attendance)@) == m,
            Err(e) => r == Err::<(), ContractError>(e) && final(attendance)@ == old(attendance)@,
        },
{
    let ghost att0 = attendance@;
    let n0 = attendance.len();
    let mut i: usize = 0;
    assert(targets@.take(0) =~= seq![]);
    while i < targets.len()
        invariant
            i <= targets@.len(),
            att0 == old(attendance)@,
            n0 == att0.len(),
            attendance@.len() >= n0,
            attendance@.subrange(0, n0 as int) == att0,
            mark_all(attendance_view(att0), a@, targets@.take(i as int)) == Ok::<
                Seq<(Seq<char>, u64)>,
                ContractError,
            >(attendance_view(attendance@)),
        decreases targets@.len() - i,
    {
        assert(targets@.take(i + 1).drop_last() =~= targets@.take(i as int));
        let ghost before = attendance@;
        let res = update_attendance_record(attendance, a, targets[i]);
        if let Err(e) = res {
            proof {
                lemma_mark_err_stays(attendance_view(att0), a@, targets@, i + 1);
            }
            attendance.truncate(n0);
            assert(attendance@ =~= att0);
            return Err(e);
        }
        assert(attendance@.subrange(0, n0 as int) =~= before.subrange(0, n0 as int));
        i = i + 1;
    }
    assert(targets@.take(i as int) =~= targets@);
    Ok(())
}

/// Whether every element of `v` is `x`.
fn all_equal(v: &Vec<u64>, x: u64) -> (r: bool)
    ensures
        r == forall|k: int| 0 <= k < v@.len() ==> v@[k] == x,
{
    let mut i: usize = 0;
    while i < v.len()
        invariant
            i <= v@.len(),
            forall|k: int| 0 <= k < i ==> v@[k] == x,
        decreases v@.len() - i,
    {
        if v[i] != x {
            return false;
        }
        i = i + 1;
    }
    true
}

/// Whether every element of `v` is among `allowed`.
fn all_within(v: &Vec<u64>, allowed: &Vec<u64>) -> (r: bool)
    ensures
        r == forall|k: int| 0 <= k < v@.len() ==> allowed@.contains(v@[k]),
{
    let mut i: usize = 0;
    while i < v.len()
        invariant
            i <= v@.len(),
            forall|k: int| 0 <= k < i ==> allowed@.contains(v@[k]),
        decreases v@.len() - i,
    {
        if !contains_u64(allowed, v[i]) {
            return false;
        }
        i = i + 1;
    }
    true
}

impl EventLedger {
    /// Checks a guest in. `is_usher` is whether the caller is on the usher
    /// roster, `signature_valid` whether the guest's signature over the
    /// signing digest verified, and `guest_weight` the ticket address's
    /// weight on the guest roster. Either the marks of `checkin_result` are
    /// all recorded, or nothing changes.
    pub fn perform_checkin_guest(
        &mut self,
        is_usher: bool,
        signature_valid: bool,
        ticket_addr: &String,
        claimed_segment_ids: &Vec<u64>,
        guest_weight: Option<u64>,
    ) -> (r: Result<(), ContractError>)
        requires
            old(self).wf(),
        ensures
            final(self).wf(),
            final(self).title == old(self).title,
            final(self).description == old(self).description,
            final(self).curator == old(self).curator,
            final(self).guest_details == old(self).guest_details,
            final(self).event_timeline == old(self).event_timeline,
            final(self).book@.reserved == old(self).book@.reserved,
            final(self).book@.tallies == old(self).book@.tallies,
            final(self).book@.homies == old(self).book@.homies,
            match checkin_result(
                old(self).guest_details@,
                old(self).book@.attendance,
                is_usher,
                signature_valid,
                ticket_addr@,
                claimed_segment_ids@,
                guest_weight,
            ) {
                Ok(att) => r is Ok && final(self).book@.attendance == att,
                Err(e) => r == Err::<(), ContractError>(e) && final(self).book@.attendance == old(
                    self,
                ).book@.attendance,
            },
    {
        proof {
            checkin_records_write_once(
                self.guest_details@,
                self.book@.attendance,
                is_usher,
                signature_valid,
                ticket_addr@,
                claimed_segment_ids@,
                guest_weight,
            );
        }
        if !is_usher {
            return Err(ContractError::NotAnEventUsher);
        }
        if !signature_valid {
            return Err(ContractError::CheckinVerificationFailed);
        }
        let w = match guest_weight {
            None => return Err(ContractError::GuestTypeIncorrect),
            Some(w) => w,
        };
        let idx = match find_tier(&self.guest_details, w) {
            None => return Err(ContractError::GuestTypeIncorrect),
            Some(i) => i,
        };
        let tier = &self.guest_details[idx];
        let claimed = claimed_segment_ids;
        match &tier.event_segment_access {
            EventSegmentAccessType::SingleSegment { id } => {
                if claimed.len() == 0 || !all_equal(claimed, *id) {
                    return Err(ContractError::IncorrectEventSegmentId);
                }
                let res = update_attendance_record(&mut self.book.attendance, ticket_addr, *id);
                assert(seq![*id].drop_last() =~= seq![]);
                assert(seq![*id].last() == *id);
                assert(mark_all(old(self).book@.attendance, ticket_addr@, seq![]) == Ok::<
                    Seq<(Seq<char>, u64)>,
                    ContractError,
                >(old(self).book@.attendance));
                match res {
                    Err(e) => Err(e),
                    Ok(_) => Ok(()),
                }
            },
            EventSegmentAccessType::AnyOfSpecificSegments { ids } => {
                if !all_within(claimed, ids) {
                    return Err(ContractError::IncorrectEventSegmentId);
                }
                mark_targets(&mut self.book.attendance, ticket_addr, claimed)
            },
            EventSegmentAccessType::AllOfSpecificSegments { ids } => {
                mark_targets(&mut self.book.attendance, ticket_addr, ids)
            },
        }
    }
}

proof fn lemma_mark_all_props(att: Seq<(Seq<char>, u64)>, a: Seq<char>, targets: Seq<u64>)
    ensures
        mark_all(att, a, targets) is Err ==> mark_all(att, a, targets)->Err_0
            == ContractError::GuestAlreadyCheckedIn,
        mark_all(att, a, targets) is Ok ==> {
            let m = mark_all(att, a, targets)->Ok_0;
            &&& m.len() >= att.len()
            &&& m.subrange(0, att.len() as int) == att
            &&& forall|k: int| 0 <= k < targets.len() ==> !att.contains((a, #[trigger] targets[k]))
            &&& (att.no_duplicates() ==> m.no_duplicates())
        },
    decreases targets.len(),
{
    if targets.len() > 0 {
        let d = targets.drop_last();
        lemma_mark_all_props(att, a, d);
        if mark_all(att, a, targets) is Ok {
            let m0 = mark_all(att, a, d)->Ok_0;
            let m = mark_all(att, a, targets)->Ok_0;
            assert(m == m0.push((a, targets.last())));
            assert(m.subrange(0, att.len() as int) =~= m0.subrange(0, att.len() as int));
            assert forall|k: int| 0 <= k < targets.len() implies !att.contains(
                (a, #[trigger] targets[k]),
            ) by {
                if k < targets.len() - 1 {
                    assert(d[k] == targets[k]);
                } else {
                    if att.contains((a, targets[k])) {
                        let j = choose|j: int| 0 <= j < att.len() && att[j] == (a, targets[k]);
                        assert(m0[j] == att[j]);
                    }
                }
            }
        }
    } else {
        assert(att.subrange(0, att.len() as int) =~= att);
    }
}

/// Attendance is write-once: once `a` is recorded at segment `seg`, a
/// check-in whose tier policy would mark `seg` for `a` again is refused with
/// `GuestAlreadyCheckedIn`, even from an usher with a valid signature.
pub proof fn checked_in_pair_refused_again(
    tiers: Seq<GuestDetails>,
    att: Seq<(Seq<char>, u64)>,
    a: Seq<char>,
    claimed: Seq<u64>,
    w: u64,
    seg: u64,
)
    requires
        weight_index(tiers, w) >= 0,
        checkin_targets(tiers[weight_index(tiers, w)].event_segment_access, claimed) is Ok,
        checkin_targets(tiers[weight_index(tiers, w)].event_segment_access, claimed)->Ok_0.contains(
            seg,
        ),
        att.contains((a, seg)),
    ensures
        checkin_result(tiers, att, true, true, a, claimed, Some(w)) == Err::<
            Seq<(Seq<char>, u64)>,
            ContractError,
        >(ContractError::GuestAlreadyCheckedIn),
{
    let targets = checkin_targets(tiers[weight_index(tiers, w)].event_segment_access, claimed)->Ok_0;
    lemma_mark_all_props(att, a, targets);
    let k = choose|k: int| 0 <= k < targets.len() && targets[k] == seg;
    if mark_all(att, a, targets) is Ok {
        assert(!att.contains((a, targets[k])));
    }
}

/// A check-in only ever adds records, each pair at most once: the records
/// in place stay as they are, and records without repeats stay without
/// repeats.
pub proof fn checkin_records_write_once(
    tiers: Seq<GuestDetails>,
    att: Seq<(Seq<char>, u64)>,
    is_usher: bool,
    signature_valid: bool,
    a: Seq<char>,
    claimed: Seq<u64>,
    guest_weight: Option<u64>,
)
    requires
        att.no_duplicates(),
    ensures
        checkin_result(tiers, att, is_usher, signature_valid, a, claimed, guest_weight) is Ok ==> {
            let m = checkin_result(tiers, att, is_usher, signature_valid, a, claimed, guest_weight)->Ok_0;
            &&& m.subrange(0, att.len() as int) == att
            &&& m.no_duplicates()
        },
{
    if checkin_result(tiers, att, is_usher, signature_valid, a, claimed, guest_weight) is Ok {
        let w = guest_weight->Some_0;
        let targets = checkin_targets(tiers[weight_index(tiers, w)].event_segment_access, claimed)->Ok_0;
        lemma_mark_all_props(att, a, targets);
    }
}

/// Once marking a prefix of the targets is refused, marking all of them is
/// refused the same way.
proof fn lemma_mark_err_stays(att: Seq<(Seq<char>, u64)>, a: Seq<char>, targets: Seq<u64>, n: int)
    requires
        0 <= n <= targets.len(),
    ensures
        mark_all(att, a, targets.take(n)) is Err ==> mark_all(att, a, targets) == mark_all(
            att,
            a,
            targets.take(n),
        ),
    decreases targets.len() - n,
{
    if n < targets.len() {
        lemma_mark_err_stays(att, a, targets, n + 1);
        assert(targets.take(n + 1).drop_last() =~= targets.take(n));
    } else {
        assert(targets.take(n) =~= targets);
    }
}

} // verus!
