use cw_ave::ledger::EventLedger;
use cw_ave::purchase::PurchaseOutcome;
use cw_ave::types::{
    Coin, ContractError, EventSegment, EventSegmentAccessType, GuestDetails, Member,
    RegisteringEventAddressAndPayment, RegisteringGuest, ReplaceHomieTicket,
};

fn coin(amount: u128, denom: &str) -> Coin {
    Coin { denom: denom.to_string(), amount }
}

fn segment(description: &str, start: u64, end: u64) -> EventSegment {
    EventSegment { stage_description: description.to_string(), start, end }
}

fn tier(
    label: &str,
    weight: u64,
    max: u32,
    total: u32,
    cost: Vec<Coin>,
    access: EventSegmentAccessType,
) -> GuestDetails {
    GuestDetails {
        guest_type: label.to_string(),
        guest_weight: weight,
        max_ticket_limit: max,
        total_ticket_limit: total,
        ticket_cost: cost,
        event_segment_access: access,
    }
}

fn unit(addr: &str, asset: &str) -> RegisteringEventAddressAndPayment {
    RegisteringEventAddressAndPayment { ticket_addr: addr.to_string(), payment_asset: asset.to_string() }
}

fn vip() -> GuestDetails {
    tier(
        "VIP",
        1,
        5,
        100,
        vec![coin(1000000, "ujuno")],
        EventSegmentAccessType::SingleSegment { id: 0 },
    )
}

const SENDER: &str = "sender";

fn setup() -> EventLedger {
    EventLedger::instantiate(
        "Test Event".to_string(),
        "Test Description".to_string(),
        SENDER.to_string(),
        vec![vip()],
        vec![segment("Main Event", 1000, 2000)],
    )
    .unwrap()
}

fn setup_with(tiers: Vec<GuestDetails>, timeline: Vec<EventSegment>) -> Result<EventLedger, ContractError> {
    EventLedger::instantiate(
        "Test Event".to_string(),
        "Test Description".to_string(),
        SENDER.to_string(),
        tiers,
        timeline,
    )
}

fn buy(
    ledger: &mut EventLedger,
    sender: &str,
    funds: Vec<Coin>,
    groups: Vec<RegisteringGuest>,
) -> Result<PurchaseOutcome, ContractError> {
    ledger.perform_ticket_purchase(&sender.to_string(), &funds, &groups)
}

fn amount_in(coins: &[Coin], denom: &str) -> u128 {
    coins.iter().filter(|c| c.denom == denom).map(|c| c.amount).sum()
}

#[test]
fn test_successful_instantiate() {
    let env = setup();
    assert_eq!(env.title, "Test Event");
    assert_eq!(env.curator, SENDER);
}

#[test]
fn test_duplicate_guest_weight_fails() {
    let guest_details = vec![
        vip(),
        tier(
            "Regular",
            1,
            10,
            500,
            vec![coin(500000, "ujuno")],
            EventSegmentAccessType::SingleSegment { id: 0 },
        ),
    ];
    let result = setup_with(guest_details, vec![segment("Main Event", 1000, 2000)]);
    assert!(result.is_err());
    assert_eq!(result.err(), Some(ContractError::DuplicateGuestWeight));
}

#[test]
fn test_invalid_event_dates_fails() {
    let result = setup_with(vec![vip()], vec![segment("Main Event", 2000, 1000)]);
    assert!(result.is_err());
    assert_eq!(result.err(), Some(ContractError::InvalidEventDates));
}

#[test]
fn test_overlapping_event_dates_fails() {
    let result = setup_with(
        vec![vip()],
        vec![segment("Event 1", 1000, 2000), segment("Event 2", 1500, 2500)],
    );
    assert!(result.is_err());
    assert_eq!(result.err(), Some(ContractError::OverlappingEventDates));
}

#[test]
fn test_invalid_guest_details() {
    let general = tier(
        "General",
        50,
        10,
        10,
        vec![coin(500, "ujuno")],
        EventSegmentAccessType::SingleSegment { id: 0 },
    );
    let err = EventLedger::instantiate(
        "Test Event".to_string(),
        "A test event".to_string(),
        "alice".to_string(),
        vec![general],
        vec![segment("First Event", 1000, 2000), segment("Overlapping Event", 1500, 2500)],
    )
    .err()
    .unwrap();
    assert_eq!(err, ContractError::OverlappingEventDates);
}

#[test]
fn test_purchase_tickets_success() {
    let mut t = setup();
    let purchase_request =
        vec![RegisteringGuest { guest_weight: 1, reap: vec![unit("guest1", "ujuno")] }];
    let result = buy(&mut t, SENDER, vec![coin(1000000, "ujuno")], purchase_request);
    assert!(result.is_ok());
    let out = result.unwrap();
    assert_eq!(t.reserved_count(1), Some(1));
    assert_eq!(out.guest_roster_additions, vec![Member { addr: "guest1".to_string(), weight: 1 }]);
    assert_eq!(out.license_fees, vec![coin(30000, "ujuno")]);
    assert_eq!(out.proceeds, vec![coin(970000, "ujuno")]);
    assert!(out.refund.is_empty());
}

#[test]
fn test_purchase_tickets_insufficient_funds() {
    let mut t = setup();
    let purchase_request =
        vec![RegisteringGuest { guest_weight: 1, reap: vec![unit("guest1", "ujuno")] }];
    let result = buy(&mut t, SENDER, vec![coin(100000, "ujuno")], purchase_request);
    // Should not error but tickets won't be allocated
    assert!(result.is_ok());
    let out = result.unwrap();
    assert_eq!(t.reserved_count(1), Some(0));
    assert_eq!(out.refund, vec![coin(100000, "ujuno")]);
    assert!(out.license_fees.is_empty());
    assert!(out.guest_roster_additions.is_empty());
}

#[test]
fn test_claim_ticket_payments_curator_only() {
    let t = setup();
    let result = t.perform_claim_ticket_payments(&SENDER.to_string());
    assert!(result.is_ok());
    assert_eq!(result.unwrap(), vec!["ujuno".to_string()]);
    let result = t.perform_claim_ticket_payments(&"other_user".to_string());
    assert!(result.is_err());
    assert_eq!(result.err(), Some(ContractError::NotAnEventUsher));
}

#[test]
fn test_query_functions() {
    let t = setup();
    assert_eq!(t.title, "Test Event");
    assert_eq!(t.event_timeline.len(), 1);
    let guest_details = t.guest_type_details_by_weight(1).unwrap();
    assert_eq!(guest_details.guest_type, "VIP");
    assert_eq!(t.guest_details.len(), 1);
    assert_eq!(guest_details.ticket_cost.len(), 1);
    assert!(t.guest_type_details_by_weight(2).is_none());
}
