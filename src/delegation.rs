//! Tickets bought for others: claiming them and reassigning addresses.
use vstd::prelude::*;

use crate::ledger::{
    find_homies, homie_index, homies_bounded, homies_view, reserved_by, EventLedger, HomieTickets,
    HomiesV, MAX_HOMIE_TICKETS,
};
use crate::search::{
    first_index, lemma_first_index, lemma_first_index_bounds, members_view, strs_view,
};
use crate::types::{ContractError, Member, ReplaceHomieTicket};

verus! {

/// Whether a text is `x`.
pub open spec fn is_text(x: Seq<char>) -> spec_fn(Seq<char>) -> bool {
    |y: Seq<char>| y == x
}

/// `list` without its first occurrence of `x`.
pub open spec fn without_first(list: Seq<Seq<char>>, x: Seq<char>) -> Seq<Seq<char>> {
    let p = first_index(list, is_text(x));
    if p >= 0 {
        list.remove(p)
    } else {
        list
    }
}

/// A delegate claims the ticket that `reserver` bought for it: the claimant
/// leaves `reserver`'s delegation list, so the reserver can no longer act
/// for it. Refused where `reserver` holds no delegation list.
pub open spec fn claim_result(homies: Seq<HomiesV>, reserver: Seq<char>, claimant: Seq<char>) -> Result<
    Seq<HomiesV>,
    ContractError,
> {
    let j = homie_index(homies, reserver);
    if j < 0 {
        Err(ContractError::HomieTicketNotFound)
    } else {
        Ok(homies.update(j, (reserver, without_first(homies[j].1, claimant))))
    }
}

/// A reassignment seen as (old, new).
pub open spec fn replacements_view(s: Seq<ReplaceHomieTicket>) -> Seq<(Seq<char>, Seq<char>)> {
    s.map_values(|r: ReplaceHomieTicket| (r.old@, r.new@))
}

/// Whether a reassignment starts from `h`.
pub open spec fn replaces(h: Seq<char>) -> spec_fn((Seq<char>, Seq<char>)) -> bool {
    |u: (Seq<char>, Seq<char>)| u.0 == h
}

/// A delegation list with each address that a reassignment starts from
/// replaced by that reassignment's target (the first one, where several start
/// from it).
pub open spec fn replaced(list: Seq<Seq<char>>, updates: Seq<(Seq<char>, Seq<char>)>) -> Seq<
    Seq<char>,
> {
    list.map_values(
        |h: Seq<char>|
            if first_index(updates, replaces(h)) >= 0 {
                updates[first_index(updates, replaces(h))].1
            } else {
                h
            },
    )
}

/// The delegation lists with the list of `key` set to `list`.
pub open spec fn set_homies(homies: Seq<HomiesV>, key: Seq<char>, list: Seq<Seq<char>>) -> Seq<
    HomiesV,
> {
    let j = homie_index(homies, key);
    if j >= 0 {
        homies.update(j, (key, list))
    } else {
        homies.push((key, list))
    }
}

/// Roster moves for reassigned delegates: each one whose old address is on
/// the guest roster (at `old_weights[k]`) is added at its new address with
/// that weight, and its old address removed.
pub open spec fn delegate_moves(
    updates: Seq<(Seq<char>, Seq<char>)>,
    old_weights: Seq<Option<u64>>,
) -> (Seq<(Seq<char>, u64)>, Seq<Seq<char>>)
    decreases updates.len(),
{
    if updates.len() == 0 {
        (seq![], seq![])
    } else {
        let (add, remove) = delegate_moves(
            updates.drop_last(),
            old_weights.take(updates.len() - 1),
        );
        match old_weights[updates.len() - 1] {
            Some(w) => (add.push((updates.last().1, w)), remove.push(updates.last().0)),
            None => (add, remove),
        }
    }
}

/// A ticket holder reassigns tickets: its delegates are renamed per
/// `updates`, and with `new_addr` its own membership and delegation list
/// move to that address at the same weight. The result is the new
/// delegation lists and the roster additions and removals.
pub open spec fn reassign_result(
    homies: Seq<HomiesV>,
    sender: Seq<char>,
    sender_weight: Option<u64>,
    new_addr: Option<Seq<char>>,
    updates: Seq<(Seq<char>, Seq<char>)>,
    old_weights: Seq<Option<u64>>,
) -> Result<(Seq<HomiesV>, Seq<(Seq<char>, u64)>, Seq<Seq<char>>), ContractError> {
    if updates.len() > MAX_HOMIE_TICKETS {
        Err(ContractError::TooManyHomieTickets)
    } else {
        match sender_weight {
            None => Err(ContractError::NoReservedTicketsForGuest),
            Some(w) => {
                let j = homie_index(homies, sender);
                let homies2 = if j < 0 {
                    homies
                } else {
                    let list = replaced(homies[j].1, updates);
                    match new_addr {
                        Some(n) => set_homies(homies.remove(j), n, list),
                        None => homies.update(j, (sender, list)),
                    }
                };
                let (add, remove) = delegate_moves(updates, old_weights);
                match new_addr {
                    Some(n) => Ok((homies2, seq![(n, w)] + add, seq![sender] + remove)),
                    None => Ok((homies2, add, remove)),
                }
            },
        }
    }
}

proof fn lemma_reassign_keeps_bound(
    homies: Seq<HomiesV>,
    sender: Seq<char>,
    sender_weight: Option<u64>,
    new_addr: Option<Seq<char>>,
    updates: Seq<(Seq<char>, Seq<char>)>,
    old_weights: Seq<Option<u64>>,
)
    requires
        homies_bounded(homies),
    ensures
        reassign_result(homies, sender, sender_weight, new_addr, updates, old_weights) is Ok
            ==> homies_bounded(
            reassign_result(homies, sender, sender_weight, new_addr, updates, old_weights)->Ok_0.0,
        ),
{
    let j = homie_index(homies, sender);
    lemma_first_index_bounds(homies, reserved_by(sender));
    if j >= 0 {
        let list = replaced(homies[j].1, updates);
        assert(list.len() == homies[j].1.len());
        match new_addr {
            Some(n) => {
                let h1 = homies.remove(j);
                assert forall|k: int| 0 <= k < h1.len() implies (#[trigger] h1[k]).1.len()
                    <= MAX_HOMIE_TICKETS by {
                    if k < j {
                        assert(h1[k] == homies[k]);
                    } else {
                        assert(h1[k] == homies[k + 1]);
                    }
                }
                lemma_first_index_bounds(h1, reserved_by(n));
                let h2 = set_homies(h1, n, list);
                assert forall|k: int| 0 <= k < h2.len() implies (#[trigger] h2[k]).1.len()
                    <= MAX_HOMIE_TICKETS by {
                    if k < h1.len() && k != homie_index(h1, n) {
                        assert(h2[k] == h1[k]);
                    }
                }
            },
            None => {
                let h2 = homies.update(j, (sender, list));
                assert forall|k: int| 0 <= k < h2.len() implies (#[trigger] h2[k]).1.len()
                    <= MAX_HOMIE_TICKETS by {
                    if k != j {
                        assert(h2[k] == homies[k]);
                    }
                }
            },
        }
    }
}

/// Changes to the guest roster.
pub struct RosterUpdate {
    pub add: Vec<Member>,
    pub remove: Vec<String>,
}

/// Position of the first occurrence of `x` in `v`.
fn find_str(v: &Vec<String>, x: &String) -> (r: Option<usize>)
    ensures
        match r {
            Some(j) => j < v@.len() && first_index(strs_view(v@), is_text(x@)) == j,
            None => first_index(strs_view(v@), is_text(x@)) == -1,
        },
{
    let ghost sv = strs_view(v@);
    let ghost p = is_text(x@);
    let mut i: usize = 0;
    while i < v.len()
        invariant
            i <= v@.len(),
            sv == strs_view(v@),
            p == is_text(x@),
            forall|k: int| 0 <= k < i ==> !p(#[trigger] sv[k]),
        decreases v@.len() - i,
    {
        assert(sv[i as int] == v@[i as int]@);
        if v[i] == *x {
            proof {
                lemma_first_index(sv, p, i as int);
            }
            return Some(i);
        }
        i = i + 1;
    }
    proof {
        lemma_first_index(sv, p, i as int);
    }
    None
}

/// Position of the first reassignment that starts from `h`.
fn find_update(updates: &Vec<ReplaceHomieTicket>, h: &String) -> (r: Option<usize>)
    ensures
        match r {
            Some(j) => j < updates@.len() && first_index(replacements_view(updates@), replaces(h@))
                == j,
            None => first_index(replacements_view(updates@), replaces(h@)) == -1,
        },
{
    let ghost uv = replacements_view(updates@);
    let ghost p = replaces(h@);
    let mut i: usize = 0;
    while i < updates.len()
        invariant
            i <= updates@.len(),
            uv == replacements_view(updates@),
            p == replaces(h@),
            forall|k: int| 0 <= k < i ==> !p(#[trigger] uv[k]),
        decreases updates@.len() - i,
    {
        assert(uv[i as int] == (updates@[i as int].old@, updates@[i as int].new@));
        if updates[i].old == *h {
            proof {
                lemma_first_index(uv, p, i as int);
            }
            return Some(i);
        }
        i = i + 1;
    }
    proof {
        lemma_first_index(uv, p, i as int);
    }
    None
}

/// A delegation list with reassignments applied; see `replaced`.
fn replace_all(list: &Vec<String>, updates: &Vec<ReplaceHomieTicket>) -> (r: Vec<String>)
    ensures
        strs_view(r@) == replaced(strs_view(list@), replacements_view(updates@)),
{
    let ghost target = replaced(strs_view(list@), replacements_view(updates@));
    let mut out: Vec<String> = Vec::new();
    let mut i: usize = 0;
    while i < list.len()
        invariant
            i <= list@.len(),
            target == replaced(strs_view(list@), replacements_view(updates@)),
            strs_view(out@) == target.take(i as int),
        decreases list@.len() - i,
    {
        let ghost prev = out@;
        let x = match find_update(updates, &list[i]) {
            Some(j) => {
                proof {
                    lemma_first_index_bounds(replacements_view(updates@), replaces(list@[i as int]@));
                }
                assert(replacements_view(updates@)[j as int].1 == updates@[j as int].new@);
                updates[j].new.clone()
            },
            None => list[i].clone(),
        };
        assert(strs_view(list@)[i as int] == list@[i as int]@);
        assert(x@ == target[i as int]);
        out.push(x);
        assert(out@ =~= prev.push(x));
        assert(strs_view(out@) =~= strs_view(prev).push(x@));
        assert(strs_view(out@) =~= target.take(i + 1));
        i = i + 1;
    }
    assert(target.take(i as int) =~= target);
    out
}

/// Sets the delegation list of `key`.
fn set_homie_list(homies: &mut Vec<HomieTickets>, key: &String, list: Vec<String>)
    ensures
        homies_view(final(homies)@) == set_homies(homies_view(old(homies)@), key@, strs_view(list@)),
{
    let ghost h0 = homies_view(homies@);
    match find_homies(homies, key) {
        Some(j) => {
            homies[j] = HomieTickets { reserver: key.clone(), tickets: list };
            assert(homies_view(homies@) =~= h0.update(j as int, (key@, strs_view(list@))));
        },
        None => {
            let ghost prev = homies@;
            let x = HomieTickets { reserver: key.clone(), tickets: list };
            homies.push(x);
            assert(homies@ =~= prev.push(x));
            assert(homies_view(homies@) =~= h0.push((key@, strs_view(list@))));
        },
    }
}

/// The view of an optional address.
pub open spec fn opt_view(a: Option<String>) -> Option<Seq<char>> {
    match a {
        Some(s) => Some(s@),
        None => None,
    }
}

impl EventLedger {
    /// A delegate (`sender`) claims the ticket that `reserver` bought for it;
    /// see `claim_result`.
    pub fn perform_claim_ticket_reserved_by_homie(&mut self, sender: &String, reserver: &String) -> (r:
        Result<(), ContractError>)
        requires
            old(self).wf(),
        ensures
            final(self).wf(),
            final(self).title == old(self).title,
            final(self).description == old(self).description,
            final(self).curator == old(self).curator,
            final(self).guest_details == old(self).guest_details,
            final(self).event_timeline == old(self).event_timeline,
            final(self).book@.reserved == old(self).book@.reserved,
            final(self).book@.tallies == old(self).book@.tallies,
            final(self).book@.attendance == old(self).book@.attendance,
            match claim_result(old(self).book@.homies, reserver@, sender@) {
                Ok(h) => r is Ok && final(self).book@.homies == h,
                Err(e) => r == Err::<(), ContractError>(e) && final(self).book@.homies == old(
                    self,
                ).book@.homies,
            },
    {
        let ghost h0 = self.book@.homies;
        match find_homies(&self.book.homie_tickets, reserver) {
            None => Err(ContractError::HomieTicketNotFound),
            Some(j) => {
                proof {
                    lemma_first_index_bounds(h0, reserved_by(reserver@));
                }
                assert(h0[j as int] == (
                    self.book.homie_tickets@[j as int].reserver@,
                    strs_view(self.book.homie_tickets@[j as int].tickets@),
                ));
                let ghost target = without_first(h0[j as int].1, sender@);
                match find_str(&self.book.homie_tickets[j].tickets, sender) {
                    Some(p) => {
                        self.book.homie_tickets[j].tickets.remove(p);
                        assert(strs_view(self.book.homie_tickets@[j as int].tickets@)
                            =~= target);
                    },
                    None => {},
                }
                assert(self.book@.homies =~= h0.update(j as int, (reserver@, target)));
                Ok(())
            },
        }
    }

    /// The ticket holder `sender` (on the guest roster at `sender_weight`)
    /// reassigns its delegates per `homies_to_update`, whose old addresses
    /// are on the roster at `old_weights`, and with `new_ticket_addr` moves
    /// its own ticket there; see `reassign_result`.
    pub fn perform_update_ticket_wallet(
        &mut self,
        sender: &String,
        sender_weight: Option<u64>,
        new_ticket_addr: Option<String>,
        homies_to_update: &Vec<ReplaceHomieTicket>,
        old_weights: &Vec<Option<u64>>,
    ) -> (r: Result<RosterUpdate, ContractError>)
        requires
            old(self).wf(),
            old_weights@.len() == homies_to_update@.len(),
        ensures
            final(self).wf(),
            final(self).title == old(self).title,
            final(self).description == old(self).description,
            final(self).curator == old(self).curator,
            final(self).guest_details == old(self).guest_details,
            final(self).event_timeline == old(self).event_timeline,
            final(self).book@.reserved == old(self).book@.reserved,
            final(self).book@.tallies == old(self).book@.tallies,
            final(self).book@.attendance == old(self).book@.attendance,
            match reassign_result(
                old(self).book@.homies,
                sender@,
                sender_weight,
                opt_view(new_ticket_addr),
                replacements_view(homies_to_update@),
                old_weights@,
            ) {
                Ok((h, add, remove)) => {
                    &&& r is Ok
                    &&& final(self).book@.homies == h
                    &&& members_view(r->Ok_0.add@) == add
                    &&& strs_view(r->Ok_0.remove@) == remove
                },
                Err(e) => r == Err::<RosterUpdate, ContractError>(e) && final(self).book@.homies
                    == old(self).book@.homies,
            },
    {
        if homies_to_update.len() > MAX_HOMIE_TICKETS {
            return Err(ContractError::TooManyHomieTickets);
        }
        let w = match sender_weight {
            None => return Err(ContractError::NoReservedTicketsForGuest),
            Some(w) => w,
        };
        proof {
            lemma_reassign_keeps_bound(
                self.book@.homies,
                sender@,
                sender_weight,
                opt_view(new_ticket_addr),
                replacements_view(homies_to_update@),
                old_weights@,
            );
        }
        let ghost h0 = self.book@.homies;
        let ghost uv = replacements_view(homies_to_update@);
        match find_homies(&self.book.homie_tickets, sender) {
            None => {},
            Some(j) => {
                proof {
                    lemma_first_index_bounds(h0, reserved_by(sender@));
                }
                assert(h0[j as int].1 == strs_view(self.book.homie_tickets@[j as int].tickets@));
                let list = replace_all(&self.book.homie_tickets[j].tickets, homies_to_update);
                match &new_ticket_addr {
                    Some(n) => {
                        self.book.homie_tickets.remove(j);
                        assert(homies_view(self.book.homie_tickets@) =~= h0.remove(j as int));
                        set_homie_list(&mut self.book.homie_tickets, n, list);
                    },
                    None => {
                        let ghost lv = strs_view(list@);
                        self.book.homie_tickets[j] = HomieTickets {
                            reserver: sender.clone(),
                            tickets: list,
                        };
                        assert(homies_view(self.book.homie_tickets@) =~= h0.update(
                            j as int,
                            (sender@, lv),
                        ));
                    },
                }
            },
        }
        let mut add: Vec<Member> = Vec::new();
        let mut remove: Vec<String> = Vec::new();
        if let Some(n) = &new_ticket_addr {
            add.push(Member { addr: n.clone(), weight: w });
            remove.push(sender.clone());
        }
        let ghost add0 = members_view(add@);
        let ghost remove0 = strs_view(remove@);
        assert(add0 =~= match opt_view(new_ticket_addr) {
            Some(n) => seq![(n, w)],
            None => seq![],
        });
        assert(remove0 =~= match opt_view(new_ticket_addr) {
            Some(n) => seq![sender@],
            None => seq![],
        });
        let mut k: usize = 0;
        assert(uv.take(0) =~= seq![]);
        while k < homies_to_update.len()
            invariant
                k <= homies_to_update@.len(),
                old_weights@.len() == homies_to_update@.len(),
                uv == replacements_view(homies_to_update@),
                members_view(add@) == add0 + delegate_moves(
                    uv.take(k as int),
                    old_weights@.take(k as int),
                ).0,
                strs_view(remove@) == remove0 + delegate_moves(
                    uv.take(k as int),
                    old_weights@.take(k as int),
                ).1,
            decreases homies_to_update@.len() - k,
        {
            assert(uv.take(k + 1).drop_last() =~= uv.take(k as int));
            assert(old_weights@.take(k + 1).take(k as int) =~= old_weights@.take(k as int));
            assert(uv.take(k + 1).last() == (
                homies_to_update@[k as int].old@,
                homies_to_update@[k as int].new@,
            ));
            let ghost add_before = add@;
            let ghost remove_before = remove@;
            if let Some(ow) = old_weights[k] {
                let m = Member { addr: homies_to_update[k].new.clone(), weight: ow };
                add.push(m);
                assert(add@ =~= add_before.push(m));
                assert(members_view(add@) =~= members_view(add_before).push((m.addr@, ow)));
                let o = homies_to_update[k].old.clone();
                remove.push(o);
                assert(remove@ =~= remove_before.push(o));
                assert(strs_view(remove@) =~= strs_view(remove_before).push(o@));
            }
            k = k + 1;
        }
        assert(uv.take(k as int) =~= uv);
        assert(old_weights@.take(k as int) =~= old_weights@);
        Ok(RosterUpdate { add, remove })
    }
}

} // verus!
