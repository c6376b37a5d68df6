//! Ticket purchases: admission against capacity, settlement, roster registration.
use vstd::prelude::*;
use vstd::slice::slice_subrange;

use crate::ledger::{
    book_wf, find_homies, find_tally, homie_index, homies_bounded, homies_view, reserved_by,
    set_wallet_total, tally_index, tally_of, wallet_total, BookModel, EventBook, EventLedger,
    HomieTickets, HomiesV, WalletTally, MAX_HOMIE_TICKETS,
};
use crate::search::{
    contains_str, find_tier, lemma_first_index_bounds, members_view, strs_view, weight_index,
};
use crate::settlement::{
    admitted_count, amount_of, assets_of, count_tickets_and_remainder, lemma_nonzero_amount,
    lemma_settle_conserves, nonzero, settle, without_zero_amounts, CoinV,
};
use crate::types::{
    coins_view, Coin, ContractError, GuestDetails, Member, RegisteringEventAddressAndPayment,
    RegisteringGuest, TicketDetails,
};

verus! {

/// Records that `reserver` holds ticket `a` for someone else.
pub open spec fn add_homie(homies: Seq<HomiesV>, reserver: Seq<char>, a: Seq<char>) -> Result<
    Seq<HomiesV>,
    ContractError,
> {
    let j = homie_index(homies, reserver);
    if j < 0 {
        Ok(homies.push((reserver, seq![a])))
    } else if homies[j].1.contains(a) {
        Err(ContractError::DuplicateHomiesTicketAddr)
    } else if homies[j].1.len() >= MAX_HOMIE_TICKETS {
        Err(ContractError::TooManyHomieTickets)
    } else {
        Ok(homies.update(j, (reserver, homies[j].1.push(a))))
    }
}

/// Adds the admitted units to the guest roster at weight `w`, in order, and
/// records each one bought for another address as a delegation of `sender`.
pub open spec fn register_units(
    homies: Seq<HomiesV>,
    roster: Seq<(Seq<char>, u64)>,
    sender: Seq<char>,
    units: Seq<RegisteringEventAddressAndPayment>,
    admitted: Seq<bool>,
    w: u64,
) -> Result<(Seq<HomiesV>, Seq<(Seq<char>, u64)>), ContractError>
    decreases units.len(),
{
    if units.len() == 0 {
        Ok((homies, roster))
    } else {
        match register_units(
            homies,
            roster,
            sender,
            units.drop_last(),
            admitted.take(units.len() - 1),
            w,
        ) {
            Err(e) => Err(e),
            Ok((h, r)) => {
                let a = units.last().ticket_addr@;
                if !admitted[units.len() - 1] {
                    Ok((h, r))
                } else if a == sender {
                    Ok((h, r.push((a, w))))
                } else {
                    match add_homie(h, sender, a) {
                        Err(e) => Err(e),
                        Ok(h2) => Ok((h2, r.push((a, w)))),
                    }
                }
            },
        }
    }
}

/// Where a purchase stands between tier groups.
pub struct PurchaseState {
    pub book: BookModel,
    pub funds: Seq<CoinV>,
    pub roster: Seq<(Seq<char>, u64)>,
    pub fees: Seq<CoinV>,
    pub shares: Seq<CoinV>,
}

/// One tier group of a purchase: admit a prefix of the requested units that
/// fits the tier's remaining capacity, settle it, check the sender's
/// per-wallet cap, and register the admitted units.
pub open spec fn purchase_group(
    tiers: Seq<GuestDetails>,
    sender: Seq<char>,
    st: PurchaseState,
    g: RegisteringGuest,
) -> Result<PurchaseState, ContractError> {
    let idx = weight_index(tiers, g.guest_weight);
    if idx < 0 {
        Err(ContractError::UnknownGuestWeight)
    } else {
        let t = tiers[idx];
        let count = st.book.reserved[idx];
        let room: int = if t.total_ticket_limit >= count {
            t.total_ticket_limit - count
        } else {
            0
        };
        let n: int = if g.reap@.len() <= room {
            g.reap@.len() as int
        } else {
            room
        };
        let units = g.reap@.subrange(0, n);
        let (f2, admitted, fees, shares) = settle(
            st.funds,
            coins_view(t.ticket_cost@),
            assets_of(units),
        );
        let k = admitted_count(admitted);
        let total = wallet_total(st.book.tallies, sender, t.guest_weight) + k;
        if total > t.max_ticket_limit {
            Err(ContractError::CannotReserveTicketCount)
        } else {
            match register_units(st.book.homies, st.roster, sender, units, admitted, t.guest_weight) {
                Err(e) => Err(e),
                Ok((homies, roster)) => Ok(
                    PurchaseState {
                        book: BookModel {
                            reserved: st.book.reserved.update(idx, (count + k) as u128),
                            tallies: set_wallet_total(
                                st.book.tallies,
                                sender,
                                t.guest_weight,
                                total as u128,
                            ),
                            attendance: st.book.attendance,
                            homies,
                        },
                        funds: nonzero(f2),
                        roster,
                        fees: st.fees + fees,
                        shares: st.shares + shares,
                    },
                ),
            }
        }
    }
}

/// The tier groups of a purchase, in order; the first refusal ends it.
pub open spec fn purchase_upto(
    tiers: Seq<GuestDetails>,
    sender: Seq<char>,
    st: PurchaseState,
    groups: Seq<RegisteringGuest>,
) -> Result<PurchaseState, ContractError>
    decreases groups.len(),
{
    if groups.len() == 0 {
        Ok(st)
    } else {
        match purchase_upto(tiers, sender, st, groups.drop_last()) {
            Err(e) => Err(e),
            Ok(s) => purchase_group(tiers, sender, s, groups.last()),
        }
    }
}

/// Where a purchase starts.
pub open spec fn purchase_start(book: BookModel, funds: Seq<Coin>) -> PurchaseState {
    PurchaseState {
        book,
        funds: nonzero(coins_view(funds)),
        roster: seq![],
        fees: seq![],
        shares: seq![],
    }
}

/// What a successful purchase hands out.
pub struct PurchaseOutcome {
    /// tendered funds not consumed, without zero amounts
    pub refund: Vec<Coin>,
    /// license fee of each admitted unit
    pub license_fees: Vec<Coin>,
    /// event's share of each admitted unit
    pub proceeds: Vec<Coin>,
    /// admitted ticket addresses to add to the guest roster, with their tier weight
    pub guest_roster_additions: Vec<Member>,
}

/// Records that `reserver` holds ticket `a` for someone else.
fn add_homie_ticket(homies: &mut Vec<HomieTickets>, reserver: &String, a: &String) -> (r: Result<
    (),
    ContractError,
>)
    ensures
        match add_homie(homies_view(old(homies)@), reserver@, a@) {
            Ok(h) => r is Ok && homies_view(final(homies)@) == h,
            Err(e) => r == Err::<(), ContractError>(e),
        },
{
    let ghost h0 = homies_view(homies@);
    match find_homies(homies, reserver) {
        None => {
            let mut tickets: Vec<String> = Vec::new();
            tickets.push(a.clone());
            assert(strs_view(tickets@) =~= seq![a@]);
            homies.push(HomieTickets { reserver: reserver.clone(), tickets });
            assert(homies_view(homies@) =~= h0.push((reserver@, seq![a@])));
            Ok(())
        },
        Some(j) => {
            proof {
                lemma_first_index_bounds(h0, reserved_by(reserver@));
            }
            assert(h0[j as int] == (homies@[j as int].reserver@, strs_view(homies@[j as int].tickets@)));
            if contains_str(&homies[j].tickets, a) {
                return Err(ContractError::DuplicateHomiesTicketAddr);
            }
            if homies[j].tickets.len() >= MAX_HOMIE_TICKETS {
                return Err(ContractError::TooManyHomieTickets);
            }
            let ghost old_entry = homies@[j as int];
            homies[j].tickets.push(a.clone());
            assert(strs_view(homies@[j as int].tickets@) =~= strs_view(old_entry.tickets@).push(a@));
            assert(homies_view(homies@) =~= h0.update(
                j as int,
                (reserver@, h0[j as int].1.push(a@)),
            ));
            Ok(())
        },
    }
}

/// Adds the admitted units to the roster at weight `w` and records
/// delegations; see `register_units`.
fn register_admitted(
    homies: &mut Vec<HomieTickets>,
    roster: &mut Vec<Member>,
    sender: &String,
    units: &[RegisteringEventAddressAndPayment],
    admitted: &Vec<bool>,
    w: u64,
) -> (r: Result<(), ContractError>)
    requires
        admitted@.len() == units@.len(),
    ensures
        match register_units(
            homies_view(old(homies)@),
            members_view(old(roster)@),
            sender@,
            units@,
            admitted@,
            w,
        ) {
            Ok((h, ro)) => r is Ok && homies_view(final(homies)@) == h && members_view(
                final(roster)@,
            ) == ro,
            Err(e) => r == Err::<(), ContractError>(e),
        },
{
    let ghost h0 = homies_view(homies@);
    let ghost r0 = members_view(roster@);
    let mut i: usize = 0;
    assert(units@.take(0) =~= seq![]);
    while i < units.len()
        invariant
            i <= units@.len(),
            admitted@.len() == units@.len(),
            h0 == homies_view(old(homies)@),
            r0 == members_view(old(roster)@),
            register_units(h0, r0, sender@, units@.take(i as int), admitted@.take(i as int), w)
                == Ok::<(Seq<HomiesV>, Seq<(Seq<char>, u64)>), ContractError>(
                (homies_view(homies@), members_view(roster@)),
            ),
        decreases units@.len() - i,
    {
        let ghost u1 = units@.take(i + 1);
        let ghost a1 = admitted@.take(i + 1);
        assert(u1.drop_last() =~= units@.take(i as int));
        assert(a1.take(i as int) =~= admitted@.take(i as int));
        assert(u1.last() == units@[i as int]);
        assert(a1[i as int] == admitted@[i as int]);
        if admitted[i] {
            let a = &units[i].ticket_addr;
            if *a != *sender {
                let res = add_homie_ticket(homies, sender, a);
                if res.is_err() {
                    proof {
                        assert(register_units(h0, r0, sender@, u1, a1, w) == Err::<
                            (Seq<HomiesV>, Seq<(Seq<char>, u64)>),
                            ContractError,
                        >(res->Err_0));
                        lemma_register_err_stays(h0, r0, sender@, units@, admitted@, w, i + 1);
                        assert(register_units(h0, r0, sender@, units@, admitted@, w) == Err::<
                            (Seq<HomiesV>, Seq<(Seq<char>, u64)>),
                            ContractError,
                        >(res->Err_0));
                    }
                    return res;
                }
            }
            let ghost r_before = roster@;
            roster.push(Member { addr: a.clone(), weight: w });
            assert(members_view(roster@) =~= members_view(r_before).push((a@, w)));
        }
        i = i + 1;
    }
    assert(units@.take(i as int) =~= units@);
    assert(admitted@.take(i as int) =~= admitted@);
    Ok(())
}

/// Once registering a prefix of the units fails, registering all of them
/// fails the same way.
proof fn lemma_register_err_stays(
    h: Seq<HomiesV>,
    r: Seq<(Seq<char>, u64)>,
    sender: Seq<char>,
    units: Seq<RegisteringEventAddressAndPayment>,
    admitted: Seq<bool>,
    w: u64,
    n: int,
)
    requires
        0 <= n <= units.len(),
        admitted.len() == units.len(),
    ensures
        register_units(h, r, sender, units.take(n), admitted.take(n), w) is Err ==> register_units(
            h,
            r,
            sender,
            units,
            admitted,
            w,
        ) == register_units(h, r, sender, units.take(n), admitted.take(n), w),
    decreases units.len() - n,
{
    if n < units.len() {
        lemma_register_err_stays(h, r, sender, units, admitted, w, n + 1);
        assert(units.take(n + 1).drop_last() =~= units.take(n));
        assert(admitted.take(n + 1).take(n) =~= admitted.take(n));
    } else {
        assert(units.take(n) =~= units);
        assert(admitted.take(n) =~= admitted);
    }
}

/// One tier group of a purchase; see `purchase_group`. On a refusal the
/// arguments are left in an unspecified state.
fn purchase_one_group(
    tiers: &Vec<GuestDetails>,
    sender: &String,
    book: &mut EventBook,
    funds: &mut Vec<Coin>,
    roster: &mut Vec<Member>,
    fees: &mut Vec<Coin>,
    shares: &mut Vec<Coin>,
    g: &RegisteringGuest,
) -> (r: Result<(), ContractError>)
    requires
        book_wf(tiers@, old(book)@),
    ensures
        match purchase_group(
            tiers@,
            sender@,
            PurchaseState {
                book: old(book)@,
                funds: coins_view(old(funds)@),
                roster: members_view(old(roster)@),
                fees: coins_view(old(fees)@),
                shares: coins_view(old(shares)@),
            },
            *g,
        ) {
            Ok(st) => {
                &&& r is Ok
                &&& final(book)@ == st.book
                &&& coins_view(final(funds)@) == st.funds
                &&& members_view(final(roster)@) == st.roster
                &&& coins_view(final(fees)@) == st.fees
                &&& coins_view(final(shares)@) == st.shares
            },
            Err(e) => r == Err::<(), ContractError>(e),
        },
{
    let ghost b0 = book@;
    let ghost fees0 = coins_view(fees@);
    let ghost shares0 = coins_view(shares@);
    let idx = match find_tier(tiers, g.guest_weight) {
        Some(i) => i,
        None => return Err(ContractError::UnknownGuestWeight),
    };
    proof {
        lemma_first_index_bounds(tiers@, |t: GuestDetails| t.guest_weight == g.guest_weight);
    }
    let t = &tiers[idx];
    assert(b0.reserved[idx as int] == book.reserved@[idx as int].reserved);
    let count = book.reserved[idx].reserved;
    let cap = t.total_ticket_limit as u128;
    let room: u128 = if cap >= count {
        cap - count
    } else {
        0
    };
    let n: usize = if (g.reap.len() as u128) <= room {
        g.reap.len()
    } else {
        room as usize
    };
    let units = slice_subrange(g.reap.as_slice(), 0, n);
    assert(units@ == g.reap@.subrange(0, n as int));
    let mut settled = count_tickets_and_remainder(funds, &t.ticket_cost, units);
    let found = find_tally(&book.wallet_reserved, sender, t.guest_weight);
    let prev: u128 = match found {
        Some(j) => book.wallet_reserved[j].reserved,
        None => 0,
    };
    proof {
        lemma_first_index_bounds(b0.tallies, tally_of(sender@, t.guest_weight));
        if let Some(j) = found {
            assert(b0.tallies[j as int] == (
                book.wallet_reserved@[j as int].wallet@,
                book.wallet_reserved@[j as int].guest_weight,
                book.wallet_reserved@[j as int].reserved,
            ));
        }
    }
    assert(prev == wallet_total(b0.tallies, sender@, t.guest_weight));
    assert(prev <= t.max_ticket_limit);
    let total = prev + settled.reserved;
    if total > t.max_ticket_limit as u128 {
        return Err(ContractError::CannotReserveTicketCount);
    }
    let reg = register_admitted(
        &mut book.homie_tickets,
        roster,
        sender,
        units,
        &settled.admitted,
        t.guest_weight,
    );
    if let Err(e) = reg {
        return Err(e);
    }
    book.reserved[idx] = TicketDetails { reserved: count + settled.reserved };
    match found {
        Some(j) => {
            book.wallet_reserved[j].reserved = total;
        },
        None => {
            book.wallet_reserved.push(
                WalletTally { wallet: sender.clone(), guest_weight: t.guest_weight, reserved: total },
            );
        },
    }
    *funds = settled.remaining_funds;
    fees.append(&mut settled.dev_fee_coins);
    shares.append(&mut settled.proceeds);
    assert(book@.reserved =~= b0.reserved.update(idx as int, (count + settled.reserved) as u128));
    assert(book@.tallies =~= set_wallet_total(b0.tallies, sender@, t.guest_weight, total));
    Ok(())
}

proof fn lemma_admitted_count_le(admitted: Seq<bool>)
    ensures
        admitted_count(admitted) <= admitted.len(),
    decreases admitted.len(),
{
    if admitted.len() > 0 {
        lemma_admitted_count_le(admitted.drop_last());
    }
}

proof fn lemma_settle_len(funds: Seq<CoinV>, cost: Seq<CoinV>, assets: Seq<Seq<char>>)
    ensures
        settle(funds, cost, assets).1.len() == assets.len(),
    decreases assets.len(),
{
    if assets.len() > 0 {
        lemma_settle_len(funds, cost, assets.drop_last());
    }
}

/// A tier group that goes through keeps every counter within its tier's
/// capacity and every wallet tally within its tier's per-wallet cap.
pub proof fn purchase_group_keeps_caps(
    tiers: Seq<GuestDetails>,
    sender: Seq<char>,
    st: PurchaseState,
    g: RegisteringGuest,
)
    requires
        book_wf(tiers, st.book),
    ensures
        purchase_group(tiers, sender, st, g) is Ok ==> book_wf(
            tiers,
            purchase_group(tiers, sender, st, g)->Ok_0.book,
        ),
{
    let idx = weight_index(tiers, g.guest_weight);
    lemma_first_index_bounds(tiers, |t: GuestDetails| t.guest_weight == g.guest_weight);
    if idx >= 0 && purchase_group(tiers, sender, st, g) is Ok {
        let t = tiers[idx];
        let count = st.book.reserved[idx];
        let room: int = t.total_ticket_limit - count;
        let n: int = if g.reap@.len() <= room {
            g.reap@.len() as int
        } else {
            room
        };
        let units = g.reap@.subrange(0, n);
        let (f2, admitted, fees, shares) = settle(
            st.funds,
            coins_view(t.ticket_cost@),
            assets_of(units),
        );
        lemma_settle_len(st.funds, coins_view(t.ticket_cost@), assets_of(units));
        lemma_admitted_count_le(admitted);
        let k = admitted_count(admitted);
        let total = wallet_total(st.book.tallies, sender, t.guest_weight) + k;
        let b2 = purchase_group(tiers, sender, st, g)->Ok_0.book;
        assert(b2.reserved == st.book.reserved.update(idx, (count + k) as u128));
        assert forall|i: int| 0 <= i < tiers.len() implies #[trigger] b2.reserved[i]
            <= tiers[i].total_ticket_limit by {
            if i != idx {
                assert(b2.reserved[i] == st.book.reserved[i]);
            }
        }
        let tl = st.book.tallies;
        lemma_first_index_bounds(tl, tally_of(sender, t.guest_weight));
        assert(b2.tallies == set_wallet_total(tl, sender, t.guest_weight, total as u128));
        assert forall|j: int| 0 <= j < b2.tallies.len() implies {
            let ix = weight_index(tiers, (#[trigger] b2.tallies[j]).1);
            ix >= 0 && b2.tallies[j].2 <= tiers[ix].max_ticket_limit
        } by {
            if j < tl.len() && j != tally_index(tl, sender, t.guest_weight) {
                assert(b2.tallies[j] == tl[j]);
            }
        }
    }
}

proof fn lemma_register_keeps_bound(
    homies: Seq<HomiesV>,
    roster: Seq<(Seq<char>, u64)>,
    sender: Seq<char>,
    units: Seq<RegisteringEventAddressAndPayment>,
    admitted: Seq<bool>,
    w: u64,
)
    requires
        homies_bounded(homies),
    ensures
        register_units(homies, roster, sender, units, admitted, w) is Ok ==> homies_bounded(
            register_units(homies, roster, sender, units, admitted, w)->Ok_0.0,
        ),
    decreases units.len(),
{
    if units.len() > 0 {
        lemma_register_keeps_bound(
            homies,
            roster,
            sender,
            units.drop_last(),
            admitted.take(units.len() - 1),
            w,
        );
        let r0 = register_units(
            homies,
            roster,
            sender,
            units.drop_last(),
            admitted.take(units.len() - 1),
            w,
        );
        if r0 is Ok {
            let h = r0->Ok_0.0;
            let a = units.last().ticket_addr@;
            lemma_first_index_bounds(h, reserved_by(sender));
            if add_homie(h, sender, a) is Ok {
                let h2 = add_homie(h, sender, a)->Ok_0;
                assert forall|j: int| 0 <= j < h2.len() implies (#[trigger] h2[j]).1.len()
                    <= MAX_HOMIE_TICKETS by {
                    if j < h.len() && j != homie_index(h, sender) {
                        assert(h2[j] == h[j]);
                    }
                }
            }
        }
    }
}

/// A tier group that goes through keeps every delegation list within its bound.
proof fn lemma_group_keeps_bound(
    tiers: Seq<GuestDetails>,
    sender: Seq<char>,
    st: PurchaseState,
    g: RegisteringGuest,
)
    requires
        homies_bounded(st.book.homies),
    ensures
        purchase_group(tiers, sender, st, g) is Ok ==> homies_bounded(
            purchase_group(tiers, sender, st, g)->Ok_0.book.homies,
        ),
{
    let idx = weight_index(tiers, g.guest_weight);
    if idx >= 0 {
        let t = tiers[idx];
        let count = st.book.reserved[idx];
        let room: int = if t.total_ticket_limit >= count {
            t.total_ticket_limit - count
        } else {
            0
        };
        let n: int = if g.reap@.len() <= room {
            g.reap@.len() as int
        } else {
            room
        };
        let units = g.reap@.subrange(0, n);
        let (f2, admitted, fees, shares) = settle(
            st.funds,
            coins_view(t.ticket_cost@),
            assets_of(units),
        );
        lemma_register_keeps_bound(st.book.homies, st.roster, sender, units, admitted, t.guest_weight);
    }
}

/// Capacity holds at every step: a purchase that goes through keeps every
/// tier's reservation counter within its total capacity and every wallet's
/// admitted total in a tier within the tier's per-wallet cap.
pub proof fn purchase_keeps_caps(
    tiers: Seq<GuestDetails>,
    sender: Seq<char>,
    st: PurchaseState,
    groups: Seq<RegisteringGuest>,
)
    requires
        book_wf(tiers, st.book),
    ensures
        purchase_upto(tiers, sender, st, groups) is Ok ==> book_wf(
            tiers,
            purchase_upto(tiers, sender, st, groups)->Ok_0.book,
        ),
    decreases groups.len(),
{
    if groups.len() > 0 {
        purchase_keeps_caps(tiers, sender, st, groups.drop_last());
        if purchase_upto(tiers, sender, st, groups.drop_last()) is Ok {
            purchase_group_keeps_caps(
                tiers,
                sender,
                purchase_upto(tiers, sender, st, groups.drop_last())->Ok_0,
                groups.last(),
            );
        }
    }
}

proof fn lemma_amount_of_concat(a: Seq<CoinV>, b: Seq<CoinV>, denom: Seq<char>)
    ensures
        amount_of(a + b, denom) == amount_of(a, denom) + amount_of(b, denom),
    decreases b.len(),
{
    if b.len() > 0 {
        lemma_amount_of_concat(a, b.drop_last(), denom);
        assert((a + b).drop_last() =~= a + b.drop_last());
    } else {
        assert(a + b =~= a);
    }
}

/// The funds still held, plus the fees and shares split off so far.
pub open spec fn accounted(st: PurchaseState, denom: Seq<char>) -> int {
    amount_of(st.funds, denom) + amount_of(st.fees, denom) + amount_of(st.shares, denom)
}

proof fn lemma_group_conserves(
    tiers: Seq<GuestDetails>,
    sender: Seq<char>,
    st: PurchaseState,
    g: RegisteringGuest,
    denom: Seq<char>,
)
    ensures
        purchase_group(tiers, sender, st, g) is Ok ==> accounted(
            purchase_group(tiers, sender, st, g)->Ok_0,
            denom,
        ) == accounted(st, denom),
{
    let idx = weight_index(tiers, g.guest_weight);
    if idx >= 0 && purchase_group(tiers, sender, st, g) is Ok {
        let t = tiers[idx];
        let count = st.book.reserved[idx];
        let room: int = if t.total_ticket_limit >= count {
            t.total_ticket_limit - count
        } else {
            0
        };
        let n: int = if g.reap@.len() <= room {
            g.reap@.len() as int
        } else {
            room
        };
        let units = g.reap@.subrange(0, n);
        let (f2, admitted, fees, shares) = settle(
            st.funds,
            coins_view(t.ticket_cost@),
            assets_of(units),
        );
        lemma_settle_conserves(st.funds, coins_view(t.ticket_cost@), assets_of(units), denom);
        lemma_nonzero_amount(f2, denom);
        lemma_amount_of_concat(st.fees, fees, denom);
        lemma_amount_of_concat(st.shares, shares, denom);
    }
}

proof fn lemma_purchase_conserves(
    tiers: Seq<GuestDetails>,
    sender: Seq<char>,
    st: PurchaseState,
    groups: Seq<RegisteringGuest>,
    denom: Seq<char>,
)
    ensures
        purchase_upto(tiers, sender, st, groups) is Ok ==> accounted(
            purchase_upto(tiers, sender, st, groups)->Ok_0,
            denom,
        ) == accounted(st, denom),
    decreases groups.len(),
{
    if groups.len() > 0 {
        lemma_purchase_conserves(tiers, sender, st, groups.drop_last(), denom);
        if purchase_upto(tiers, sender, st, groups.drop_last()) is Ok {
            lemma_group_conserves(
                tiers,
                sender,
                purchase_upto(tiers, sender, st, groups.drop_last())->Ok_0,
                groups.last(),
                denom,
            );
        }
    }
}

/// Settlement conservation for a whole purchase batch: for every currency,
/// the funds tendered equal exactly the refund plus the license fees plus
/// the event's shares; amounts are unsigned, so none goes negative.
pub proof fn purchase_conserves_funds(
    tiers: Seq<GuestDetails>,
    sender: Seq<char>,
    book: BookModel,
    funds: Seq<Coin>,
    groups: Seq<RegisteringGuest>,
    denom: Seq<char>,
)
    ensures
        purchase_upto(tiers, sender, purchase_start(book, funds), groups) is Ok ==> {
            let st = purchase_upto(tiers, sender, purchase_start(book, funds), groups)->Ok_0;
            amount_of(coins_view(funds), denom) == amount_of(st.funds, denom) + amount_of(
                st.fees,
                denom,
            ) + amount_of(st.shares, denom)
        },
{
    lemma_purchase_conserves(tiers, sender, purchase_start(book, funds), groups, denom);
    lemma_nonzero_amount(coins_view(funds), denom);
    assert(amount_of(seq![], denom) == 0);
}

/// Once a prefix of the tier groups is refused, the whole batch is refused
/// the same way.
proof fn lemma_purchase_err_stays(
    tiers: Seq<GuestDetails>,
    sender: Seq<char>,
    st: PurchaseState,
    groups: Seq<RegisteringGuest>,
    n: int,
)
    requires
        0 <= n <= groups.len(),
    ensures
        purchase_upto(tiers, sender, st, groups.take(n)) is Err ==> purchase_upto(
            tiers,
            sender,
            st,
            groups,
        ) == purchase_upto(tiers, sender, st, groups.take(n)),
    decreases groups.len() - n,
{
    if n < groups.len() {
        lemma_purchase_err_stays(tiers, sender, st, groups, n + 1);
        assert(groups.take(n + 1).drop_last() =~= groups.take(n));
    } else {
        assert(groups.take(n) =~= groups);
    }
}

impl EventLedger {
    /// Hook for refunding reservations that were never confirmed. No refund
    /// policy exists yet, so it accepts every request and changes nothing.
    pub fn refund_unconfirmed_ticket_purchase(&mut self, sender: &String, guests: &Vec<String>) -> (r:
        Result<(), ContractError>)
        requires
            old(self).wf(),
        ensures
            r is Ok,
            *final(self) == *old(self),
    {
        Ok(())
    }

    /// Buys tickets. The tier groups are handled in order (see
    /// `purchase_group`); funds left after one group pay for the next. The
    /// batch is all or nothing: on a refusal the ledger is unchanged.
    pub fn perform_ticket_purchase(
        &mut self,
        sender: &String,
        funds_sent: &Vec<Coin>,
        guests: &Vec<RegisteringGuest>,
    ) -> (r: Result<PurchaseOutcome, ContractError>)
        requires
            old(self).wf(),
        ensures
            final(self).wf(),
            final(self).title == old(self).title,
            final(self).description == old(self).description,
            final(self).curator == old(self).curator,
            final(self).guest_details == old(self).guest_details,
            final(self).event_timeline == old(self).event_timeline,
            match purchase_upto(
                old(self).guest_details@,
                sender@,
                purchase_start(old(self).book@, funds_sent@),
                guests@,
            ) {
                Ok(st) => {
                    &&& r is Ok
                    &&& final(self).book@ == st.book
                    &&& coins_view(r->Ok_0.refund@) == st.funds
                    &&& coins_view(r->Ok_0.license_fees@) == st.fees
                    &&& coins_view(r->Ok_0.proceeds@) == st.shares
                    &&& members_view(r->Ok_0.guest_roster_additions@) == st.roster
                },
                Err(e) => {
                    &&& r == Err::<PurchaseOutcome, ContractError>(e)
                    &&& *final(self) == *old(self)
                },
            },
    {
        let ghost tiers = self.guest_details@;
        let ghost st0 = purchase_start(self.book@, funds_sent@);
        let mut work = self.book.copy();
        let mut funds = without_zero_amounts(funds_sent);
        let mut roster: Vec<Member> = Vec::new();
        let mut fees: Vec<Coin> = Vec::new();
        let mut shares: Vec<Coin> = Vec::new();
        let mut i: usize = 0;
        assert(guests@.take(0) =~= seq![]);
        assert(members_view(roster@) =~= seq![]);
        assert(coins_view(fees@) =~= seq![]);
        assert(coins_view(shares@) =~= seq![]);
        while i < guests.len()
            invariant
                i <= guests@.len(),
                tiers == self.guest_details@,
                *self == *old(self),
                st0 == purchase_start(old(self).book@, funds_sent@),
                self.wf(),
                book_wf(tiers, work@),
                work@.attendance == old(self).book@.attendance,
                homies_bounded(work@.homies),
                purchase_upto(tiers, sender@, st0, guests@.take(i as int)) == Ok::<
                    PurchaseState,
                    ContractError,
                >(
                    PurchaseState {
                        book: work@,
                        funds: coins_view(funds@),
                        roster: members_view(roster@),
                        fees: coins_view(fees@),
                        shares: coins_view(shares@),
                    },
                ),
            decreases guests@.len() - i,
        {
            assert(guests@.take(i + 1).drop_last() =~= guests@.take(i as int));
            let ghost before = PurchaseState {
                book: work@,
                funds: coins_view(funds@),
                roster: members_view(roster@),
                fees: coins_view(fees@),
                shares: coins_view(shares@),
            };
            let res = purchase_one_group(
                &self.guest_details,
                sender,
                &mut work,
                &mut funds,
                &mut roster,
                &mut fees,
                &mut shares,
                &guests[i],
            );
            if let Err(e) = res {
                proof {
                    lemma_purchase_err_stays(tiers, sender@, st0, guests@, i as int + 1);
                }
                return Err(e);
            }
            proof {
                purchase_group_keeps_caps(tiers, sender@, before, guests@[i as int]);
                lemma_group_keeps_bound(tiers, sender@, before, guests@[i as int]);
                lemma_purchase_err_stays(tiers, sender@, st0, guests@, i as int + 1);
            }
            i = i + 1;
        }
        assert(guests@.take(i as int) =~= guests@);
        self.book = work;
        Ok(
            PurchaseOutcome {
                refund: funds,
                license_fees: fees,
                proceeds: shares,
                guest_roster_additions: roster,
            },
        )
    }
}

} // verus!
