//! The event ledger: its records, their invariant, setup and read access.
use vstd::prelude::*;

use crate::checkin::is_checked_in;
use crate::search::{
    contains_str, find_tier, first_index, lemma_first_index, strs_view, weight_index,
};
use crate::setup::{setup_error, tiers_error, validate_setup};
use crate::types::{
    Coin, ContractError, EventSegment, EventSegmentRes, GuestDetails, TicketDetails,
};

verus! {

/// Most delegate tickets that one wallet may hold for others.
pub const MAX_HOMIE_TICKETS: usize = 10;

/// Units of one tier that one wallet has been admitted.
pub struct WalletTally {
    pub wallet: String,
    pub guest_weight: u64,
    pub reserved: u128,
}

/// A guest checked into a segment.
pub struct AttendanceRecord {
    pub ticket_addr: String,
    pub event_segment_id: u64,
}

/// Ticket addresses that a wallet reserved for others.
pub struct HomieTickets {
    pub reserver: String,
    pub tickets: Vec<String>,
}

/// The records that operations change: reservation counters (one per tier,
/// in tier order), per-wallet tallies, attendance and delegations.
pub struct EventBook {
    pub reserved: Vec<TicketDetails>,
    pub wallet_reserved: Vec<WalletTally>,
    pub attendance: Vec<AttendanceRecord>,
    pub homie_tickets: Vec<HomieTickets>,
}

/// A tally seen as (wallet, tier weight, units).
pub type TallyV = (Seq<char>, u64, u128);

/// A delegation list seen as (reserver, ticket addresses).
pub type HomiesV = (Seq<char>, Seq<Seq<char>>);

/// The mathematical content of an `EventBook`.
pub struct BookModel {
    pub reserved: Seq<u128>,
    pub tallies: Seq<TallyV>,
    pub attendance: Seq<(Seq<char>, u64)>,
    pub homies: Seq<HomiesV>,
}

pub open spec fn tallies_view(s: Seq<WalletTally>) -> Seq<TallyV> {
    s.map_values(|t: WalletTally| (t.wallet@, t.guest_weight, t.reserved))
}

pub open spec fn attendance_view(s: Seq<AttendanceRecord>) -> Seq<(Seq<char>, u64)> {
    s.map_values(|a: AttendanceRecord| (a.ticket_addr@, a.event_segment_id))
}

pub open spec fn homies_view(s: Seq<HomieTickets>) -> Seq<HomiesV> {
    s.map_values(|h: HomieTickets| (h.reserver@, strs_view(h.tickets@)))
}

impl View for EventBook {
    type V = BookModel;

    open spec fn view(&self) -> BookModel {
        BookModel {
            reserved: self.reserved@.map_values(|t: TicketDetails| t.reserved),
            tallies: tallies_view(self.wallet_reserved@),
            attendance: attendance_view(self.attendance@),
            homies: homies_view(self.homie_tickets@),
        }
    }
}

/// Whether a tally is that of `wallet` in tier `w`.
pub open spec fn tally_of(wallet: Seq<char>, w: u64) -> spec_fn(TallyV) -> bool {
    |t: TallyV| t.0 == wallet && t.1 == w
}

/// Position of the tally of `wallet` in tier `w`, or -1.
pub open spec fn tally_index(tallies: Seq<TallyV>, wallet: Seq<char>, w: u64) -> int {
    first_index(tallies, tally_of(wallet, w))
}

/// Units of tier `w` that `wallet` has been admitted.
pub open spec fn wallet_total(tallies: Seq<TallyV>, wallet: Seq<char>, w: u64) -> u128 {
    let j = tally_index(tallies, wallet, w);
    if j >= 0 {
        tallies[j].2
    } else {
        0
    }
}

/// The tallies with the count of `wallet` in tier `w` set to `v`.
pub open spec fn set_wallet_total(tallies: Seq<TallyV>, wallet: Seq<char>, w: u64, v: u128) -> Seq<
    TallyV,
> {
    let j = tally_index(tallies, wallet, w);
    if j >= 0 {
        tallies.update(j, (wallet, w, v))
    } else {
        tallies.push((wallet, w, v))
    }
}

/// Whether a delegation list is that of `reserver`.
pub open spec fn reserved_by(reserver: Seq<char>) -> spec_fn(HomiesV) -> bool {
    |h: HomiesV| h.0 == reserver
}

/// Position of the delegation list of `reserver`, or -1.
pub open spec fn homie_index(homies: Seq<HomiesV>, reserver: Seq<char>) -> int {
    first_index(homies, reserved_by(reserver))
}

/// Whether every delegation list holds at most `MAX_HOMIE_TICKETS` addresses.
pub open spec fn homies_bounded(homies: Seq<HomiesV>) -> bool {
    forall|j: int| 0 <= j < homies.len() ==> (#[trigger] homies[j]).1.len() <= MAX_HOMIE_TICKETS
}

/// Whether the book's records respect the tiers: one counter per tier, each
/// within the tier's capacity, and every wallet tally within its tier's
/// per-wallet cap.
pub open spec fn book_wf(tiers: Seq<GuestDetails>, book: BookModel) -> bool {
    &&& book.reserved.len() == tiers.len()
    &&& forall|i: int|
        0 <= i < tiers.len() ==> #[trigger] book.reserved[i] <= tiers[i].total_ticket_limit
    &&& forall|j: int|
        0 <= j < book.tallies.len() ==> {
            let idx = weight_index(tiers, (#[trigger] book.tallies[j]).1);
            idx >= 0 && book.tallies[j].2 <= tiers[idx].max_ticket_limit
        }
}

/// Position of the tally of `wallet` in tier `w`.
pub(crate) fn find_tally(tallies: &Vec<WalletTally>, wallet: &String, w: u64) -> (r: Option<usize>)
    ensures
        match r {
            Some(j) => j < tallies@.len() && tally_index(tallies_view(tallies@), wallet@, w) == j,
            None => tally_index(tallies_view(tallies@), wallet@, w) == -1,
        },
{
    let ghost tv = tallies_view(tallies@);
    let ghost p = tally_of(wallet@, w);
    let mut i: usize = 0;
    while i < tallies.len()
        invariant
            i <= tallies@.len(),
            tv == tallies_view(tallies@),
            p == tally_of(wallet@, w),
            forall|k: int| 0 <= k < i ==> !p(#[trigger] tv[k]),
        decreases tallies@.len() - i,
    {
        assert(tv[i as int] == (tallies@[i as int].wallet@, tallies@[i as int].guest_weight, tallies@[i as int].reserved));
        if tallies[i].wallet == *wallet && tallies[i].guest_weight == w {
            proof {
                lemma_first_index(tv, p, i as int);
            }
            return Some(i);
        }
        i = i + 1;
    }
    proof {
        lemma_first_index(tv, p, i as int);
    }
    None
}

/// Position of the delegation list of `reserver`.
pub(crate) fn find_homies(homies: &Vec<HomieTickets>, reserver: &String) -> (r: Option<usize>)
    ensures
        match r {
            Some(j) => j < homies@.len() && homie_index(homies_view(homies@), reserver@) == j,
            None => homie_index(homies_view(homies@), reserver@) == -1,
        },
{
    let ghost hv = homies_view(homies@);
    let ghost p = reserved_by(reserver@);
    let mut i: usize = 0;
    while i < homies.len()
        invariant
            i <= homies@.len(),
            hv == homies_view(homies@),
            p == reserved_by(reserver@),
            forall|k: int| 0 <= k < i ==> !p(#[trigger] hv[k]),
        decreases homies@.len() - i,
    {
        assert(hv[i as int].0 == homies@[i as int].reserver@);
        if homies[i].reserver == *reserver {
            proof {
                lemma_first_index(hv, p, i as int);
            }
            return Some(i);
        }
        i = i + 1;
    }
    proof {
        lemma_first_index(hv, p, i as int);
    }
    None
}

/// Copies a list of strings.
fn copy_strs(v: &Vec<String>) -> (r: Vec<String>)
    ensures
        strs_view(r@) == strs_view(v@),
{
    let mut out: Vec<String> = Vec::new();
    let mut i: usize = 0;
    while i < v.len()
        invariant
            i <= v@.len(),
            strs_view(out@) == strs_view(v@).take(i as int),
        decreases v@.len() - i,
    {
        let ghost prev = out@;
        let x = v[i].clone();
        out.push(x);
        assert(out@ =~= prev.push(x));
        assert(strs_view(out@) =~= strs_view(prev).push(x@));
        assert(strs_view(out@) =~= strs_view(v@).take(i + 1));
        i = i + 1;
    }
    assert(strs_view(v@).take(i as int) =~= strs_view(v@));
    out
}

impl EventBook {
    /// An empty book for `n` tiers: every counter at zero, no records.
    pub fn empty(n: usize) -> (r: EventBook)
        ensures
            r@.reserved == Seq::new(n as nat, |i: int| 0u128),
            r@.tallies.len() == 0,
            r@.attendance.len() == 0,
            r@.homies.len() == 0,
    {
        let mut reserved: Vec<TicketDetails> = Vec::new();
        let mut i: usize = 0;
        while i < n
            invariant
                i <= n,
                reserved@.map_values(|t: TicketDetails| t.reserved) == Seq::new(
                    i as nat,
                    |k: int| 0u128,
                ),
            decreases n - i,
        {
            let ghost prev = reserved@;
            reserved.push(TicketDetails { reserved: 0 });
            assert(reserved@ =~= prev.push(TicketDetails { reserved: 0 }));
            assert(reserved@.map_values(|t: TicketDetails| t.reserved) =~= prev.map_values(
                |t: TicketDetails| t.reserved,
            ).push(0u128));
            assert(reserved@.map_values(|t: TicketDetails| t.reserved) =~= Seq::new(
                (i + 1) as nat,
                |k: int| 0u128,
            ));
            i = i + 1;
        }
        let r = EventBook {
            reserved,
            wallet_reserved: Vec::new(),
            attendance: Vec::new(),
            homie_tickets: Vec::new(),
        };
        assert(r@.tallies =~= seq![]);
        assert(r@.attendance =~= seq![]);
        assert(r@.homies =~= seq![]);
        r
    }

    /// A copy of the book.
    pub fn copy(&self) -> (r: EventBook)
        ensures
            r@ == self@,
    {
        let mut reserved: Vec<TicketDetails> = Vec::new();
        let mut i: usize = 0;
        while i < self.reserved.len()
            invariant
                i <= self.reserved@.len(),
                reserved@.map_values(|t: TicketDetails| t.reserved) == self@.reserved.take(i as int),
            decreases self.reserved@.len() - i,
        {
            let ghost prev = reserved@;
            let x = TicketDetails { reserved: self.reserved[i].reserved };
            reserved.push(x);
            assert(reserved@ =~= prev.push(x));
            assert(reserved@.map_values(|t: TicketDetails| t.reserved) =~= prev.map_values(
                |t: TicketDetails| t.reserved,
            ).push(x.reserved));
            assert(reserved@.map_values(|t: TicketDetails| t.reserved) =~= self@.reserved.take(
                i + 1,
            ));
            i = i + 1;
        }
        assert(self@.reserved.take(i as int) =~= self@.reserved);
        let mut tallies: Vec<WalletTally> = Vec::new();
        let mut i: usize = 0;
        while i < self.wallet_reserved.len()
            invariant
                i <= self.wallet_reserved@.len(),
                tallies_view(tallies@) == self@.tallies.take(i as int),
            decreases self.wallet_reserved@.len() - i,
        {
            let t = &self.wallet_reserved[i];
            let ghost prev = tallies@;
            let x = WalletTally {
                wallet: t.wallet.clone(),
                guest_weight: t.guest_weight,
                reserved: t.reserved,
            };
            tallies.push(x);
            assert(tallies@ =~= prev.push(x));
            assert(tallies_view(tallies@) =~= tallies_view(prev).push(
                (x.wallet@, x.guest_weight, x.reserved),
            ));
            assert(tallies_view(tallies@) =~= self@.tallies.take(i + 1));
            i = i + 1;
        }
        assert(self@.tallies.take(i as int) =~= self@.tallies);
        let mut attendance: Vec<AttendanceRecord> = Vec::new();
        let mut i: usize = 0;
        while i < self.attendance.len()
            invariant
                i <= self.attendance@.len(),
                attendance_view(attendance@) == self@.attendance.take(i as int),
            decreases self.attendance@.len() - i,
        {
            let a = &self.attendance[i];
            let ghost prev = attendance@;
            let x = AttendanceRecord {
                ticket_addr: a.ticket_addr.clone(),
                event_segment_id: a.event_segment_id,
            };
            attendance.push(x);
            assert(attendance@ =~= prev.push(x));
            assert(attendance_view(attendance@) =~= attendance_view(prev).push(
                (x.ticket_addr@, x.event_segment_id),
            ));
            assert(attendance_view(attendance@) =~= self@.attendance.take(i + 1));
            i = i + 1;
        }
        assert(self@.attendance.take(i as int) =~= self@.attendance);
        let mut homies: Vec<HomieTickets> = Vec::new();
        let mut i: usize = 0;
        while i < self.homie_tickets.len()
            invariant
                i <= self.homie_tickets@.len(),
                homies_view(homies@) == self@.homies.take(i as int),
            decreases self.homie_tickets@.len() - i,
        {
            let h = &self.homie_tickets[i];
            let ghost prev = homies@;
            let x = HomieTickets { reserver: h.reserver.clone(), tickets: copy_strs(&h.tickets) };
            let ghost xv = (x.reserver@, strs_view(x.tickets@));
            homies.push(x);
            assert(homies@ =~= prev.push(x));
            assert(homies_view(homies@) =~= homies_view(prev).push(xv));
            assert(homies_view(homies@) =~= self@.homies.take(i + 1));
            i = i + 1;
        }
        assert(self@.homies.take(i as int) =~= self@.homies);
        let r = EventBook {
            reserved,
            wallet_reserved: tallies,
            attendance,
            homie_tickets: homies,
        };
        assert(r@.reserved =~= self@.reserved);
        r
    }
}

/// An event: its texts and curator, its validated tiers and timeline, and
/// the records that operations change.
pub struct EventLedger {
    pub title: String,
    pub description: String,
    pub curator: String,
    pub guest_details: Vec<GuestDetails>,
    pub event_timeline: Vec<EventSegment>,
    pub book: EventBook,
}

impl EventLedger {
    /// The tiers are valid, the records respect them, and no attendance
    /// pair is recorded twice.
    pub open spec fn wf(&self) -> bool {
        &&& tiers_error(self.guest_details@) is None
        &&& book_wf(self.guest_details@, self.book@)
        &&& self.book@.attendance.no_duplicates()
        &&& homies_bounded(self.book@.homies)
    }

    /// Sets up an event. It is refused with the first fault of its texts,
    /// tiers and timeline; otherwise every tier's counter starts at zero and
    /// there are no records yet.
    pub fn instantiate(
        title: String,
        description: String,
        curator: String,
        guest_details: Vec<GuestDetails>,
        event_timeline: Vec<EventSegment>,
    ) -> (r: Result<EventLedger, ContractError>)
        ensures
            match setup_error(title@, description@, guest_details@, event_timeline@) {
                Some(e) => r == Err::<EventLedger, ContractError>(e),
                None => {
                    &&& r is Ok
                    &&& r->Ok_0.wf()
                    &&& r->Ok_0.title == title
                    &&& r->Ok_0.description == description
                    &&& r->Ok_0.curator == curator
                    &&& r->Ok_0.guest_details == guest_details
                    &&& r->Ok_0.event_timeline == event_timeline
                    &&& r->Ok_0.book@.reserved == Seq::new(guest_details@.len(), |i: int| 0u128)
                    &&& r->Ok_0.book@.tallies.len() == 0
                    &&& r->Ok_0.book@.attendance.len() == 0
                    &&& r->Ok_0.book@.homies.len() == 0
                },
            },
    {
        match validate_setup(&title, &description, &guest_details, &event_timeline) {
            Err(e) => Err(e),
            Ok(()) => {
                let book = EventBook::empty(guest_details.len());
                Ok(EventLedger { title, description, curator, guest_details, event_timeline, book })
            },
        }
    }
}

/// Adds to `acc`, in order, each currency of `cost` not yet in it.
pub open spec fn add_denoms(acc: Seq<Seq<char>>, cost: Seq<Coin>) -> Seq<Seq<char>>
    decreases cost.len(),
{
    if cost.len() == 0 {
        acc
    } else {
        let a = add_denoms(acc, cost.drop_last());
        if a.contains(cost.last().denom@) {
            a
        } else {
            a.push(cost.last().denom@)
        }
    }
}

/// Every currency that some tier accepts, each once, in order of first
/// appearance.
pub open spec fn accepted_denoms(tiers: Seq<GuestDetails>) -> Seq<Seq<char>>
    decreases tiers.len(),
{
    if tiers.len() == 0 {
        seq![]
    } else {
        add_denoms(accepted_denoms(tiers.drop_last()), tiers.last().ticket_cost@)
    }
}

fn push_new_denoms(acc: &mut Vec<String>, cost: &Vec<Coin>)
    ensures
        strs_view(final(acc)@) == add_denoms(strs_view(old(acc)@), cost@),
{
    let ghost a0 = strs_view(acc@);
    let mut i: usize = 0;
    assert(cost@.take(0) =~= seq![]);
    while i < cost.len()
        invariant
            i <= cost@.len(),
            a0 == strs_view(old(acc)@),
            strs_view(acc@) == add_denoms(a0, cost@.take(i as int)),
        decreases cost@.len() - i,
    {
        assert(cost@.take(i + 1).drop_last() =~= cost@.take(i as int));
        if !contains_str(acc, &cost[i].denom) {
            let ghost prev = acc@;
            let d = cost[i].denom.clone();
            acc.push(d);
            assert(acc@ =~= prev.push(d));
            assert(strs_view(acc@) =~= strs_view(prev).push(d@));
        }
        i = i + 1;
    }
    assert(cost@.take(i as int) =~= cost@);
}

impl EventLedger {
    /// The curator collects ticket payments: the currencies to collect are
    /// every currency some tier accepts, each once. Only the curator may.
    pub fn perform_claim_ticket_payments(&self, sender: &String) -> (r: Result<
        Vec<String>,
        ContractError,
    >)
        ensures
            sender@ != self.curator@ ==> r == Err::<Vec<String>, ContractError>(
                ContractError::NotAnEventUsher,
            ),
            sender@ == self.curator@ ==> r is Ok && strs_view(r->Ok_0@) == accepted_denoms(
                self.guest_details@,
            ),
    {
        if *sender != self.curator {
            return Err(ContractError::NotAnEventUsher);
        }
        let mut acc: Vec<String> = Vec::new();
        let mut i: usize = 0;
        assert(self.guest_details@.take(0) =~= seq![]);
        assert(strs_view(acc@) =~= seq![]);
        while i < self.guest_details.len()
            invariant
                i <= self.guest_details@.len(),
                strs_view(acc@) == accepted_denoms(self.guest_details@.take(i as int)),
            decreases self.guest_details@.len() - i,
        {
            assert(self.guest_details@.take(i + 1).drop_last() =~= self.guest_details@.take(
                i as int,
            ));
            push_new_denoms(&mut acc, &self.guest_details[i].ticket_cost);
            i = i + 1;
        }
        assert(self.guest_details@.take(i as int) =~= self.guest_details@);
        Ok(acc)
    }

    /// The tier with roster weight `w`.
    pub fn guest_type_details_by_weight(&self, w: u64) -> (r: Option<&GuestDetails>)
        ensures
            weight_index(self.guest_details@, w) < 0 ==> r is None,
            weight_index(self.guest_details@, w) >= 0 ==> r == Some(
                &self.guest_details@[weight_index(self.guest_details@, w)],
            ),
    {
        match find_tier(&self.guest_details, w) {
            Some(i) => Some(&self.guest_details[i]),
            None => None,
        }
    }

    /// Units reserved so far in the tier with roster weight `w`.
    pub fn reserved_count(&self, w: u64) -> (r: Option<u128>)
        requires
            self.wf(),
        ensures
            weight_index(self.guest_details@, w) < 0 ==> r is None,
            weight_index(self.guest_details@, w) >= 0 ==> r == Some(
                self.book@.reserved[weight_index(self.guest_details@, w)],
            ),
    {
        match find_tier(&self.guest_details, w) {
            Some(i) => {
                assert(self.book@.reserved[i as int] == self.book.reserved@[i as int].reserved);
                Some(self.book.reserved[i].reserved)
            },
            None => None,
        }
    }

    /// The segments with their positions, latest position first.
    pub fn event_segments(&self) -> (r: Vec<EventSegmentRes>)
        ensures
            r@.len() == self.event_timeline@.len(),
            forall|k: int|
                0 <= k < r@.len() ==> {
                    let i = self.event_timeline@.len() - 1 - k;
                    &&& (#[trigger] r@[k]).seg_id == i
                    &&& r@[k].segment.stage_description@
                        == self.event_timeline@[i].stage_description@
                    &&& r@[k].segment.start == self.event_timeline@[i].start
                    &&& r@[k].segment.end == self.event_timeline@[i].end
                },
    {
        let mut out: Vec<EventSegmentRes> = Vec::new();
        let n = self.event_timeline.len();
        let mut i: usize = n;
        while i > 0
            invariant
                i <= n,
                n == self.event_timeline@.len(),
                out@.len() == n - i,
                forall|k: int|
                    0 <= k < out@.len() ==> {
                        let j = n - 1 - k;
                        &&& (#[trigger] out@[k]).seg_id == j
                        &&& out@[k].segment.stage_description@
                            == self.event_timeline@[j].stage_description@
                        &&& out@[k].segment.start == self.event_timeline@[j].start
                        &&& out@[k].segment.end == self.event_timeline@[j].end
                    },
            decreases i,
        {
            i = i - 1;
            let s = &self.event_timeline[i];
            out.push(
                EventSegmentRes {
                    seg_id: i as u64,
                    segment: EventSegment {
                        stage_description: s.stage_description.clone(),
                        start: s.start,
                        end: s.end,
                    },
                },
            );
        }
        out
    }

    /// Whether `guest` is checked into segment `event_stage_id`.
    pub fn guest_attendance_status(&self, guest: &String, event_stage_id: u64) -> (r: bool)
        ensures
            r == self.book@.attendance.contains((guest@, event_stage_id)),
    {
        is_checked_in(&self.book.attendance, guest, event_stage_id)
    }
}

} // verus!
