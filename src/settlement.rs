//! Settling requested units against tendered funds, with the license fee split off.
use vstd::prelude::*;

use crate::types::{Coin, RegisteringEventAddressAndPayment, copy_coin, copy_coins, coins_view};

verus! {

/// The flat fee, in percent of a unit price, that goes to the license address.
pub const LICENSE_FEE_PERCENT: u128 = 3;

/// A coin seen as its currency and its amount.
pub type CoinV = (Seq<char>, u128);

/// Relies on cosmwasm_std's Uint128::multiply_ratio: `value * numerator / denominator`,
/// floored, with the product taken in 256 bits; it panics only on a zero
/// denominator or a result above u128, which `requires` leaves out.
#[verifier::external_body]
fn multiply_ratio(value: u128, numerator: u128, denominator: u128) -> (r: u128)
    requires
        denominator > 0,
        numerator <= denominator,
    ensures
        r as int == (value as int) * (numerator as int) / (denominator as int),
{
    cosmwasm_std::Uint128::new(value).multiply_ratio(numerator, denominator).u128()
}

/// The license fee taken out of one unit price.
pub open spec fn license_fee(price: u128) -> u128 {
    ((price as int) * (LICENSE_FEE_PERCENT as int) / 100) as u128
}

/// The part of one unit price that stays with the event.
pub open spec fn event_share(price: u128) -> u128 {
    (price - license_fee(price)) as u128
}

/// Position of the first coin of currency `denom`, or -1 where there is none.
pub open spec fn denom_index(coins: Seq<CoinV>, denom: Seq<char>) -> int
    decreases coins.len(),
{
    if coins.len() == 0 {
        -1
    } else {
        let k = denom_index(coins.drop_last(), denom);
        if k >= 0 {
            k
        } else if coins.last().0 == denom {
            coins.len() - 1
        } else {
            -1
        }
    }
}

/// Total amount of currency `denom` in a list of coins.
pub open spec fn amount_of(coins: Seq<CoinV>, denom: Seq<char>) -> int
    decreases coins.len(),
{
    if coins.len() == 0 {
        0
    } else {
        amount_of(coins.drop_last(), denom) + if coins.last().0 == denom {
            coins.last().1 as int
        } else {
            0
        }
    }
}

/// The coins of a list whose amount is not zero, in their order.
pub open spec fn nonzero(coins: Seq<CoinV>) -> Seq<CoinV>
    decreases coins.len(),
{
    if coins.len() == 0 {
        coins
    } else if coins.last().1 == 0 {
        nonzero(coins.drop_last())
    } else {
        nonzero(coins.drop_last()).push(coins.last())
    }
}

/// Paying for one unit in currency `asset`: where the price list names the
/// currency and the funds hold at least that price in it, the funds after
/// paying and the price paid.
pub open spec fn settle_unit(funds: Seq<CoinV>, cost: Seq<CoinV>, asset: Seq<char>) -> Option<
    (Seq<CoinV>, u128),
> {
    let pi = denom_index(cost, asset);
    let fi = denom_index(funds, asset);
    if pi >= 0 && fi >= 0 && funds[fi].1 >= cost[pi].1 {
        Some((funds.update(fi, (funds[fi].0, (funds[fi].1 - cost[pi].1) as u128)), cost[pi].1))
    } else {
        None
    }
}

/// Paying for units in currencies `assets`, in order, from `funds`: the funds
/// left, which units were admitted, the license fees and the event's shares.
pub open spec fn settle(funds: Seq<CoinV>, cost: Seq<CoinV>, assets: Seq<Seq<char>>) -> (
    Seq<CoinV>,
    Seq<bool>,
    Seq<CoinV>,
    Seq<CoinV>,
)
    decreases assets.len(),
{
    if assets.len() == 0 {
        (funds, seq![], seq![], seq![])
    } else {
        let (f, admitted, fees, shares) = settle(funds, cost, assets.drop_last());
        let asset = assets.last();
        match settle_unit(f, cost, asset) {
            Some((f2, p)) => (
                f2,
                admitted.push(true),
                fees.push((asset, license_fee(p))),
                shares.push((asset, event_share(p))),
            ),
            None => (f, admitted.push(false), fees, shares),
        }
    }
}

/// Number of admitted units.
pub open spec fn admitted_count(admitted: Seq<bool>) -> nat
    decreases admitted.len(),
{
    if admitted.len() == 0 {
        0
    } else {
        admitted_count(admitted.drop_last()) + if admitted.last() {
            1nat
        } else {
            0nat
        }
    }
}

/// The currencies in which requested units are paid.
pub open spec fn assets_of(reap: Seq<RegisteringEventAddressAndPayment>) -> Seq<Seq<char>> {
    reap.map_values(|u: RegisteringEventAddressAndPayment| u.payment_asset@)
}

/// What settling a group of units comes to.
pub struct TicketSettlement {
    /// number of admitted units
    pub reserved: u128,
    /// for each requested unit, whether it was admitted
    pub admitted: Vec<bool>,
    /// tendered funds that were not consumed, without zero amounts
    pub remaining_funds: Vec<Coin>,
    /// the license fee of each admitted unit
    pub dev_fee_coins: Vec<Coin>,
    /// the event's share of each admitted unit
    pub proceeds: Vec<Coin>,
}

proof fn lemma_denom_index(coins: Seq<CoinV>, denom: Seq<char>, i: int)
    requires
        0 <= i <= coins.len(),
        forall|k: int| 0 <= k < i ==> coins[k].0 != denom,
        i == coins.len() || coins[i].0 == denom,
    ensures
        denom_index(coins, denom) == if i == coins.len() {
            -1
        } else {
            i
        },
    decreases coins.len(),
{
    if coins.len() > 0 {
        let d = coins.drop_last();
        if i == coins.len() {
            lemma_denom_index(d, denom, i - 1);
        } else if i == coins.len() - 1 {
            lemma_denom_index(d, denom, i);
        } else {
            lemma_denom_index(d, denom, i);
        }
    }
}

proof fn lemma_denom_index_bounds(coins: Seq<CoinV>, denom: Seq<char>)
    ensures
        -1 <= denom_index(coins, denom) < coins.len(),
        denom_index(coins, denom) >= 0 ==> coins[denom_index(coins, denom)].0 == denom,
    decreases coins.len(),
{
    if coins.len() > 0 {
        lemma_denom_index_bounds(coins.drop_last(), denom);
    }
}

proof fn lemma_amount_of_update(coins: Seq<CoinV>, j: int, v: u128, denom: Seq<char>)
    requires
        0 <= j < coins.len(),
    ensures
        amount_of(coins.update(j, (coins[j].0, v)), denom) == amount_of(coins, denom) + if coins[j].0
            == denom {
            v - coins[j].1
        } else {
            0
        },
    decreases coins.len(),
{
    let u = coins.update(j, (coins[j].0, v));
    if j == coins.len() - 1 {
        assert(u.drop_last() =~= coins.drop_last());
    } else {
        assert(u.drop_last() =~= coins.drop_last().update(j, (coins[j].0, v)));
        lemma_amount_of_update(coins.drop_last(), j, v, denom);
    }
}

pub proof fn lemma_nonzero_amount(coins: Seq<CoinV>, denom: Seq<char>)
    ensures
        amount_of(nonzero(coins), denom) == amount_of(coins, denom),
    decreases coins.len(),
{
    if coins.len() > 0 {
        lemma_nonzero_amount(coins.drop_last(), denom);
        if coins.last().1 != 0 {
            assert(nonzero(coins).drop_last() =~= nonzero(coins.drop_last()));
        }
    }
}

pub proof fn lemma_settle_conserves(
    funds: Seq<CoinV>,
    cost: Seq<CoinV>,
    assets: Seq<Seq<char>>,
    denom: Seq<char>,
)
    ensures
        ({
            let (left, _a, fees, shares) = settle(funds, cost, assets);
            amount_of(funds, denom) == amount_of(left, denom) + amount_of(fees, denom) + amount_of(
                shares,
                denom,
            )
        }),
    decreases assets.len(),
{
    if assets.len() > 0 {
        lemma_settle_conserves(funds, cost, assets.drop_last(), denom);
        let (f, admitted, fees, shares) = settle(funds, cost, assets.drop_last());
        let asset = assets.last();
        match settle_unit(f, cost, asset) {
            Some((f2, p)) => {
                let fi = denom_index(f, asset);
                lemma_denom_index_bounds(f, asset);
                lemma_amount_of_update(f, fi, (f[fi].1 - p) as u128, denom);
                let fees2 = fees.push((asset, license_fee(p)));
                let shares2 = shares.push((asset, event_share(p)));
                assert(fees2.drop_last() =~= fees);
                assert(shares2.drop_last() =~= shares);
                assert(p * 3 / 100 <= p) by (nonlinear_arith);
            },
            None => {},
        }
    }
}

/// Tendered funds are conserved: for every currency, what was tendered is
/// exactly what is refunded plus the license fees plus the event's shares.
pub proof fn settlement_conserves_funds(
    funds: Seq<Coin>,
    cost: Seq<Coin>,
    reap: Seq<RegisteringEventAddressAndPayment>,
    denom: Seq<char>,
)
    ensures
        ({
            let (left, _a, fees, shares) = settle(coins_view(funds), coins_view(cost), assets_of(reap));
            amount_of(coins_view(funds), denom) == amount_of(nonzero(left), denom) + amount_of(
                fees,
                denom,
            ) + amount_of(shares, denom)
        }),
{
    let (left, _a, _f, _s) = settle(coins_view(funds), coins_view(cost), assets_of(reap));
    lemma_settle_conserves(coins_view(funds), coins_view(cost), assets_of(reap), denom);
    lemma_nonzero_amount(left, denom);
}

/// Position of the first coin of currency `denom`.
pub fn find_denom(coins: &Vec<Coin>, denom: &String) -> (r: Option<usize>)
    ensures
        match r {
            Some(j) => j < coins@.len() && denom_index(coins_view(coins@), denom@) == j,
            None => denom_index(coins_view(coins@), denom@) == -1,
        },
{
    let mut i: usize = 0;
    while i < coins.len()
        invariant
            i <= coins@.len(),
            forall|k: int| 0 <= k < i ==> coins@[k].denom@ != denom@,
        decreases coins@.len() - i,
    {
        if coins[i].denom == *denom {
            proof {
                lemma_denom_index(coins_view(coins@), denom@, i as int);
            }
            return Some(i);
        }
        i = i + 1;
    }
    proof {
        lemma_denom_index(coins_view(coins@), denom@, i as int);
    }
    None
}

/// The coins whose amount is not zero, in their order.
pub fn without_zero_amounts(coins: &Vec<Coin>) -> (r: Vec<Coin>)
    ensures
        coins_view(r@) == nonzero(coins_view(coins@)),
{
    let mut out: Vec<Coin> = Vec::new();
    let mut i: usize = 0;
    while i < coins.len()
        invariant
            i <= coins@.len(),
            coins_view(out@) == nonzero(coins_view(coins@).take(i as int)),
        decreases coins@.len() - i,
    {
        let ghost before = coins_view(coins@).take(i as int);
        let ghost after = coins_view(coins@).take(i + 1);
        assert(after.drop_last() =~= before);
        if coins[i].amount != 0 {
            out.push(copy_coin(&coins[i]));
            assert(coins_view(out@) =~= nonzero(before).push(coins@[i as int]@));
        }
        i = i + 1;
    }
    assert(coins_view(coins@).take(i as int) =~= coins_view(coins@));
    out
}

/// Settles a group of requested units, in order, against the tendered funds.
/// A unit is admitted where the price list names its currency and what is
/// left of the funds holds at least that price in it; its price is then
/// consumed, split into the license fee and the event's share. Funds never
/// consumed are handed back, without zero amounts.
pub fn count_tickets_and_remainder(
    funds_sent: &Vec<Coin>,
    ticket_cost: &Vec<Coin>,
    reap: &[RegisteringEventAddressAndPayment],
) -> (r: TicketSettlement)
    ensures
        ({
            let (left, admitted, fees, shares) = settle(
                coins_view(funds_sent@),
                coins_view(ticket_cost@),
                assets_of(reap@),
            );
            &&& r.admitted@ == admitted
            &&& r.reserved == admitted_count(admitted)
            &&& coins_view(r.remaining_funds@) == nonzero(left)
            &&& coins_view(r.dev_fee_coins@) == fees
            &&& coins_view(r.proceeds@) == shares
        }),
        r.admitted@.len() == reap@.len(),
        r.reserved <= reap@.len(),
        forall|denom: Seq<char>|
            amount_of(coins_view(funds_sent@), denom) == amount_of(
                coins_view(r.remaining_funds@),
                denom,
            ) + amount_of(coins_view(r.dev_fee_coins@), denom) + amount_of(
                coins_view(r.proceeds@),
                denom,
            ),
{
    let ghost fv = coins_view(funds_sent@);
    let ghost cv = coins_view(ticket_cost@);
    let ghost assets = assets_of(reap@);
    let mut remaining = copy_coins(funds_sent);
    let mut admitted: Vec<bool> = Vec::new();
    let mut fees: Vec<Coin> = Vec::new();
    let mut shares: Vec<Coin> = Vec::new();
    let mut reserved: u128 = 0;
    let mut i: usize = 0;
    assert(assets.take(0) =~= seq![]);
    while i < reap.len()
        invariant
            i <= reap@.len(),
            assets == assets_of(reap@),
            fv == coins_view(funds_sent@),
            cv == coins_view(ticket_cost@),
            settle(fv, cv, assets.take(i as int)) == (
                coins_view(remaining@),
                admitted@,
                coins_view(fees@),
                coins_view(shares@),
            ),
            reserved == admitted_count(admitted@),
            reserved <= i,
            admitted@.len() == i,
        decreases reap@.len() - i,
    {
        assert(assets.take(i + 1).drop_last() =~= assets.take(i as int));
        let ghost f = coins_view(remaining@);
        let ghost adm = admitted@;
        let ghost fees0 = coins_view(fees@);
        let ghost shares0 = coins_view(shares@);
        let asset = &reap[i].payment_asset;
        assert(assets.take(i + 1).last() == asset@);
        let mut ok = false;
        match find_denom(ticket_cost, asset) {
            Some(pi) => match find_denom(&remaining, asset) {
                Some(fi) => {
                    let price = ticket_cost[pi].amount;
                    assert(cv[pi as int] == ticket_cost@[pi as int]@);
                    assert(f[fi as int] == remaining@[fi as int]@);
                    if remaining[fi].amount >= price {
                        let fee = multiply_ratio(price, LICENSE_FEE_PERCENT, 100);
                        assert(price * 3 / 100 <= price) by (nonlinear_arith);
                        fees.push(Coin { denom: asset.clone(), amount: fee });
                        shares.push(Coin { denom: asset.clone(), amount: price - fee });
                        remaining[fi].amount = remaining[fi].amount - price;
                        assert(coins_view(remaining@) =~= f.update(
                            fi as int,
                            (f[fi as int].0, (f[fi as int].1 - price) as u128),
                        ));
                        assert(coins_view(fees@) =~= fees0.push((asset@, license_fee(price))));
                        assert(coins_view(shares@) =~= shares0.push((asset@, event_share(price))));
                        assert(settle_unit(f, cv, asset@) == Some((coins_view(remaining@), price)));
                        reserved = reserved + 1;
                        ok = true;
                    }
                },
                None => {},
            },
            None => {},
        }
        if !ok {
            assert(settle_unit(f, cv, asset@) is None);
        }
        admitted.push(ok);
        assert(admitted@.drop_last() =~= adm);
        i = i + 1;
    }
    assert(assets.take(i as int) =~= assets);
    let remaining_funds = without_zero_amounts(&remaining);
    let r = TicketSettlement {
        reserved,
        admitted,
        remaining_funds,
        dev_fee_coins: fees,
        proceeds: shares,
    };
    proof {
        assert forall|denom: Seq<char>|
            amount_of(coins_view(funds_sent@), denom) == amount_of(
                coins_view(r.remaining_funds@),
                denom,
            ) + amount_of(coins_view(r.dev_fee_coins@), denom) + amount_of(
                coins_view(r.proceeds@),
                denom,
            ) by {
            settlement_conserves_funds(funds_sent@, ticket_cost@, reap@, denom);
        }
    }
    r
}

} // verus!
