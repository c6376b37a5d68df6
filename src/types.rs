//! Plain data of an event: coins, segments, tiers, purchase requests, errors.
use vstd::prelude::*;

verus! {

/// An amount of one currency.
#[derive(Clone, Debug, PartialEq, Eq)]
pub struct Coin {
    pub denom: String,
    pub amount: u128,
}

impl View for Coin {
    type V = (Seq<char>, u128);

    open spec fn view(&self) -> (Seq<char>, u128) {
        (self.denom@, self.amount)
    }
}

/// The currency-and-amount views of a list of coins.
pub open spec fn coins_view(coins: Seq<Coin>) -> Seq<(Seq<char>, u128)> {
    coins.map_values(|c: Coin| c@)
}

/// Copies a coin, denomination text included.
pub fn copy_coin(c: &Coin) -> (r: Coin)
    ensures
        r@ == c@,
{
    Coin { denom: c.denom.clone(), amount: c.amount }
}

/// Copies a list of coins.
pub fn copy_coins(coins: &Vec<Coin>) -> (r: Vec<Coin>)
    ensures
        coins_view(r@) == coins_view(coins@),
{
    let mut out: Vec<Coin> = Vec::new();
    let mut i: usize = 0;
    while i < coins.len()
        invariant
            i <= coins@.len(),
            coins_view(out@) == coins_view(coins@).take(i as int),
        decreases coins@.len() - i,
    {
        let ghost prev = out@;
        let c = copy_coin(&coins[i]);
        out.push(c);
        assert(out@ =~= prev.push(c));
        assert(coins_view(out@) =~= coins_view(prev).push(c@));
        assert(coins_view(coins@).take(i + 1) =~= coins_view(coins@).take(i as int).push(
            coins@[i as int]@,
        ));
        i = i + 1;
    }
    assert(coins_view(coins@).take(i as int) =~= coins_view(coins@));
    out
}

/// One time window of the event.
pub struct EventSegment {
    pub stage_description: String,
    pub start: u64,
    pub end: u64,
}

/// A segment together with its position in the timeline.
pub struct EventSegmentRes {
    pub seg_id: u64,
    pub segment: EventSegment,
}

/// Which segments a guest of a tier is checked into.
pub enum EventSegmentAccessType {
    /// Exactly this segment, which the claim must name.
    SingleSegment { id: u64 },
    /// Each claimed segment, all of which must be among these.
    AnyOfSpecificSegments { ids: Vec<u64> },
    /// All of these segments, whatever the claim names.
    AllOfSpecificSegments { ids: Vec<u64> },
}

/// A guest tier: its capacity, its prices and its access policy.
pub struct GuestDetails {
    /// label of the tier
    pub guest_type: String,
    /// roster weight that identifies the tier
    pub guest_weight: u64,
    /// cap on what one wallet may hold in this tier
    pub max_ticket_limit: u32,
    /// cap on what all wallets together may hold in this tier
    pub total_ticket_limit: u32,
    /// accepted payment options, one per currency
    pub ticket_cost: Vec<Coin>,
    pub event_segment_access: EventSegmentAccessType,
}

/// One requested unit: the wallet it is for and the currency it is paid in.
pub struct RegisteringEventAddressAndPayment {
    pub ticket_addr: String,
    pub payment_asset: String,
}

/// A group of requested units for one tier.
pub struct RegisteringGuest {
    pub guest_weight: u64,
    pub reap: Vec<RegisteringEventAddressAndPayment>,
}

/// A delegate ticket to move from one address to another.
pub struct ReplaceHomieTicket {
    pub old: String,
    pub new: String,
}

/// A reservation count.
pub struct TicketDetails {
    pub reserved: u128,
}

/// A roster entry: an address and its weight.
#[derive(Clone, Debug, PartialEq, Eq)]
pub struct Member {
    pub addr: String,
    pub weight: u64,
}

/// Messages that arrive with a token transfer.
pub enum ReceiveMsg {
    PurchaseTickets { guests: Vec<RegisteringGuest> },
}

/// Read-only questions about an event.
pub enum QueryMsg {
    Config {},
    EventSegments {},
    GuestTypeDetailsByWeight { guest_weight: u64 },
    GuestTypeDetailsAll {},
    GuestAttendanceStatus { guest: String, event_stage_id: u64 },
    GuestAttendanceStatusAll { guest: String },
    TicketPaymentOptionsByGuestWeight { guest_weight: u64 },
    AllTicketPaymentOptions {},
}

/// Upgrade message; it carries nothing.
pub struct MigrateMsg {}

/// Everything an operation of the engine can refuse.
#[derive(Clone, Copy, Debug, PartialEq, Eq, Structural)]
pub enum ContractError {
    DuplicateGuestWeight,
    DuplicateHomiesTicketAddr,
    TooManyHomieTickets,
    CheckinVerificationFailed,
    CannotReserveTicketCount,
    NoReservedTicketsForGuest,
    OverlappingEventDates,
    InvalidEventDates,
    GuestTypeIncorrect,
    UnknownGuestWeight,
    NotAnEventUsher,
    DuplicateFeeDenom,
    BadEventDescriptionLength,
    BadEventTitleOrDescription,
    BadGuestDetailParams,
    GuestAlreadyCheckedIn,
    IncorrectEventSegmentId,
    HomieTicketNotFound,
    NoLicenseForChain,
}

} // verus!
