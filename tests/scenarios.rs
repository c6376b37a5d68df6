use cw_ave::ledger::EventLedger;
use cw_ave::license::{get_license_addr, get_license_fee};
use cw_ave::settlement::count_tickets_and_remainder;
use cw_ave::setup::{validate_event_timeline, validate_guest_details, validate_setup};
use cw_ave::signing::{
    checkin_signing_digest, generate_instantiate_salt2, guest_roster_salt, roster_namespace,
    sign_doc, signing_preamble,
};
use cw_ave::types::{
    Coin, ContractError, EventSegment, EventSegmentAccessType, GuestDetails, Member,
    RegisteringEventAddressAndPayment, RegisteringGuest, ReplaceHomieTicket,
};

fn coin(amount: u128, denom: &str) -> Coin {
    Coin { denom: denom.to_string(), amount }
}

fn seg(start: u64, end: u64) -> EventSegment {
    EventSegment { stage_description: "stage".to_string(), start, end }
}

fn tier_x(weight: u64, max: u32, total: u32, access: EventSegmentAccessType) -> GuestDetails {
    GuestDetails {
        guest_type: "tier".to_string(),
        guest_weight: weight,
        max_ticket_limit: max,
        total_ticket_limit: total,
        ticket_cost: vec![coin(1000, "x")],
        event_segment_access: access,
    }
}

fn unit(addr: &str, asset: &str) -> RegisteringEventAddressAndPayment {
    RegisteringEventAddressAndPayment { ticket_addr: addr.to_string(), payment_asset: asset.to_string() }
}

fn group(weight: u64, units: Vec<RegisteringEventAddressAndPayment>) -> RegisteringGuest {
    RegisteringGuest { guest_weight: weight, reap: units }
}

fn ledger(tiers: Vec<GuestDetails>, timeline: Vec<EventSegment>) -> EventLedger {
    EventLedger::instantiate(
        "Event".to_string(),
        "About".to_string(),
        "curator".to_string(),
        tiers,
        timeline,
    )
    .unwrap()
}

fn scenario_tier() -> GuestDetails {
    tier_x(1, 5, 10, EventSegmentAccessType::SingleSegment { id: 0 })
}

fn s(x: &str) -> String {
    x.to_string()
}

#[test]
fn scenario_a_three_units_admitted() {
    let mut l = ledger(vec![scenario_tier()], vec![seg(0, 1000)]);
    let out = l
        .perform_ticket_purchase(
            &s("buyer"),
            &vec![coin(3000, "x")],
            &vec![group(1, vec![unit("buyer", "x"), unit("buyer", "x"), unit("buyer", "x")])],
        )
        .unwrap();
    assert_eq!(l.reserved_count(1), Some(3));
    assert_eq!(out.license_fees, vec![coin(30, "x"), coin(30, "x"), coin(30, "x")]);
    assert_eq!(out.license_fees.iter().map(|c| c.amount).sum::<u128>(), 90);
    assert_eq!(out.proceeds, vec![coin(970, "x"), coin(970, "x"), coin(970, "x")]);
    assert!(out.refund.is_empty());
    assert_eq!(out.guest_roster_additions.len(), 3);
}

#[test]
fn scenario_b_capacity_limits_batch() {
    let mut l = ledger(vec![scenario_tier()], vec![seg(0, 1000)]);
    l.book.reserved[0].reserved = 9;
    let out = l
        .perform_ticket_purchase(
            &s("buyer"),
            &vec![coin(3000, "x")],
            &vec![group(1, vec![unit("a", "x"), unit("b", "x"), unit("c", "x")])],
        )
        .unwrap();
    assert_eq!(l.reserved_count(1), Some(10));
    assert_eq!(out.guest_roster_additions, vec![Member { addr: s("a"), weight: 1 }]);
    assert_eq!(out.license_fees, vec![coin(30, "x")]);
    assert_eq!(out.proceeds, vec![coin(970, "x")]);
    assert_eq!(out.refund, vec![coin(2000, "x")]);
}

#[test]
fn scenario_c_overlapping_third_segment() {
    let r = EventLedger::instantiate(
        s("Event"),
        s("About"),
        s("curator"),
        vec![scenario_tier()],
        vec![seg(0, 1000), seg(1000, 2000), seg(1500, 2500)],
    );
    assert_eq!(r.err(), Some(ContractError::OverlappingEventDates));
    // the first two alone are accepted: touching segments do not overlap
    assert!(validate_event_timeline(&vec![seg(0, 1000), seg(1000, 2000)]).is_ok());
    // gaps are allowed
    assert!(validate_event_timeline(&vec![seg(0, 10), seg(50, 60), seg(60, 60)]).is_ok());
    assert!(validate_event_timeline(&vec![]).is_ok());
}

#[test]
fn scenario_d_non_usher_refused() {
    let mut l = ledger(vec![scenario_tier()], vec![seg(0, 1000)]);
    let r = l.perform_checkin_guest(false, true, &s("guest"), &vec![0], Some(1));
    assert_eq!(r, Err(ContractError::NotAnEventUsher));
    assert!(!l.guest_attendance_status(&s("guest"), 0));
    assert!(l.book.attendance.is_empty());
}

#[test]
fn checkin_is_write_once() {
    let mut l = ledger(vec![scenario_tier()], vec![seg(0, 1000)]);
    assert_eq!(l.perform_checkin_guest(true, true, &s("guest"), &vec![0], Some(1)), Ok(()));
    assert!(l.guest_attendance_status(&s("guest"), 0));
    assert_eq!(
        l.perform_checkin_guest(true, true, &s("guest"), &vec![0], Some(1)),
        Err(ContractError::GuestAlreadyCheckedIn)
    );
    assert_eq!(l.book.attendance.len(), 1);
}

#[test]
fn checkin_refusals() {
    let mut l = ledger(
        vec![
            scenario_tier(),
            tier_x(2, 5, 10, EventSegmentAccessType::AnyOfSpecificSegments { ids: vec![0, 1] }),
            tier_x(3, 5, 10, EventSegmentAccessType::AllOfSpecificSegments { ids: vec![0, 1] }),
        ],
        vec![seg(0, 10), seg(10, 20)],
    );
    let g = s("guest");
    assert_eq!(
        l.perform_checkin_guest(true, false, &g, &vec![0], Some(1)),
        Err(ContractError::CheckinVerificationFailed)
    );
    assert_eq!(
        l.perform_checkin_guest(true, true, &g, &vec![0], None),
        Err(ContractError::GuestTypeIncorrect)
    );
    assert_eq!(
        l.perform_checkin_guest(true, true, &g, &vec![0], Some(9)),
        Err(ContractError::GuestTypeIncorrect)
    );
    assert_eq!(
        l.perform_checkin_guest(true, true, &g, &vec![1], Some(1)),
        Err(ContractError::IncorrectEventSegmentId)
    );
    assert_eq!(
        l.perform_checkin_guest(true, true, &g, &vec![], Some(1)),
        Err(ContractError::IncorrectEventSegmentId)
    );
    assert_eq!(
        l.perform_checkin_guest(true, true, &g, &vec![0, 2], Some(2)),
        Err(ContractError::IncorrectEventSegmentId)
    );
    assert!(l.book.attendance.is_empty());
}

#[test]
fn checkin_policies_mark_segments() {
    let mut l = ledger(
        vec![
            tier_x(2, 5, 10, EventSegmentAccessType::AnyOfSpecificSegments { ids: vec![0, 1] }),
            tier_x(3, 5, 10, EventSegmentAccessType::AllOfSpecificSegments { ids: vec![0, 1] }),
        ],
        vec![seg(0, 10), seg(10, 20)],
    );
    assert_eq!(l.perform_checkin_guest(true, true, &s("a"), &vec![1], Some(2)), Ok(()));
    assert!(l.guest_attendance_status(&s("a"), 1));
    assert!(!l.guest_attendance_status(&s("a"), 0));
    assert_eq!(l.perform_checkin_guest(true, true, &s("b"), &vec![], Some(3)), Ok(()));
    assert!(l.guest_attendance_status(&s("b"), 0));
    assert!(l.guest_attendance_status(&s("b"), 1));
    // a repeated claim in one check-in is refused and nothing is kept
    assert_eq!(
        l.perform_checkin_guest(true, true, &s("c"), &vec![0, 0], Some(2)),
        Err(ContractError::GuestAlreadyCheckedIn)
    );
    assert!(!l.guest_attendance_status(&s("c"), 0));
    // one segment already marked refuses the whole check-in
    assert_eq!(
        l.perform_checkin_guest(true, true, &s("a"), &vec![0, 1], Some(2)),
        Err(ContractError::GuestAlreadyCheckedIn)
    );
    assert!(!l.guest_attendance_status(&s("a"), 0));
    assert_eq!(l.book.attendance.len(), 3);
}

#[test]
fn per_wallet_cap_refuses_whole_batch() {
    let mut l = ledger(
        vec![scenario_tier(), tier_x(2, 5, 10, EventSegmentAccessType::SingleSegment { id: 0 })],
        vec![seg(0, 1000)],
    );
    let six: Vec<_> = (0..6).map(|_| unit("buyer", "x")).collect();
    let r = l.perform_ticket_purchase(
        &s("buyer"),
        &vec![coin(7000, "x")],
        &vec![group(2, vec![unit("buyer", "x")]), group(1, six)],
    );
    assert_eq!(r.err(), Some(ContractError::CannotReserveTicketCount));
    // all or nothing: the first group is not kept either
    assert_eq!(l.reserved_count(1), Some(0));
    assert_eq!(l.reserved_count(2), Some(0));
    assert!(l.book.wallet_reserved.is_empty());
    // five fit, and a sixth later does not
    let five: Vec<_> = (0..5).map(|_| unit("buyer", "x")).collect();
    assert!(l.perform_ticket_purchase(&s("buyer"), &vec![coin(5000, "x")], &vec![group(1, five)]).is_ok());
    let r = l.perform_ticket_purchase(&s("buyer"), &vec![coin(1000, "x")], &vec![group(1, vec![unit("buyer", "x")])]);
    assert_eq!(r.err(), Some(ContractError::CannotReserveTicketCount));
    assert_eq!(l.reserved_count(1), Some(5));
}

#[test]
fn capacity_never_exceeded() {
    let mut l = ledger(vec![tier_x(1, 5, 10, EventSegmentAccessType::SingleSegment { id: 0 })], vec![seg(0, 1)]);
    for buyer in ["a", "b", "c"] {
        let units: Vec<_> = (0..4).map(|_| unit(buyer, "x")).collect();
        assert!(l.perform_ticket_purchase(&s(buyer), &vec![coin(4000, "x")], &vec![group(1, units)]).is_ok());
        assert!(l.reserved_count(1).unwrap() <= 10);
    }
    assert_eq!(l.reserved_count(1), Some(10));
}

#[test]
fn unknown_tier_refused() {
    let mut l = ledger(vec![scenario_tier()], vec![seg(0, 1)]);
    let r = l.perform_ticket_purchase(&s("buyer"), &vec![coin(1000, "x")], &vec![group(7, vec![unit("buyer", "x")])]);
    assert_eq!(r.err(), Some(ContractError::UnknownGuestWeight));
}

#[test]
fn settlement_conserves_each_currency() {
    let cost = vec![coin(1000, "x"), coin(333, "y")];
    let funds = vec![coin(2500, "x"), coin(700, "y"), coin(5, "z")];
    let units = vec![unit("a", "x"), unit("b", "y"), unit("c", "x"), unit("d", "x"), unit("e", "y"), unit("f", "z")];
    let r = count_tickets_and_remainder(&funds, &cost, &units);
    assert_eq!(r.admitted, vec![true, true, true, false, true, false]);
    assert_eq!(r.reserved, 4);
    assert_eq!(r.remaining_funds, vec![coin(500, "x"), coin(34, "y"), coin(5, "z")]);
    assert_eq!(r.dev_fee_coins, vec![coin(30, "x"), coin(9, "y"), coin(30, "x"), coin(9, "y")]);
    assert_eq!(r.proceeds, vec![coin(970, "x"), coin(324, "y"), coin(970, "x"), coin(324, "y")]);
    for d in ["x", "y", "z"] {
        let sum = |c: &Vec<Coin>| -> u128 { c.iter().filter(|k| k.denom == d).map(|k| k.amount).sum() };
        assert_eq!(sum(&funds), sum(&r.remaining_funds) + sum(&r.dev_fee_coins) + sum(&r.proceeds));
    }
}

#[test]
fn settlement_drops_spent_currency() {
    let r = count_tickets_and_remainder(&vec![coin(1000, "x")], &vec![coin(1000, "x")], &vec![unit("a", "x")]);
    assert!(r.remaining_funds.is_empty());
    assert_eq!(r.reserved, 1);
    let r = count_tickets_and_remainder(&vec![], &vec![coin(1000, "x")], &vec![unit("a", "x")]);
    assert_eq!(r.reserved, 0);
    assert!(r.dev_fee_coins.is_empty());
}

#[test]
fn license_fee_rounds_down() {
    let r = count_tickets_and_remainder(&vec![coin(1000, "x")], &vec![coin(33, "x")], &vec![unit("a", "x")]);
    assert_eq!(r.dev_fee_coins, vec![coin(0, "x")]);
    assert_eq!(r.proceeds, vec![coin(33, "x")]);
    let r = count_tickets_and_remainder(&vec![coin(1000, "x")], &vec![coin(101, "x")], &vec![unit("a", "x")]);
    assert_eq!(r.dev_fee_coins, vec![coin(3, "x")]);
    assert_eq!(r.proceeds, vec![coin(98, "x")]);
    let big = u128::MAX;
    let r = count_tickets_and_remainder(&vec![coin(big, "x")], &vec![coin(big, "x")], &vec![unit("a", "x")]);
    assert_eq!(r.dev_fee_coins, vec![coin(big / 100 * 3 + (big % 100) * 3 / 100, "x")]);
}

#[test]
fn batch_funds_carry_between_groups() {
    let mut l = ledger(
        vec![scenario_tier(), tier_x(2, 5, 10, EventSegmentAccessType::SingleSegment { id: 0 })],
        vec![seg(0, 1)],
    );
    let out = l
        .perform_ticket_purchase(
            &s("buyer"),
            &vec![coin(1500, "x")],
            &vec![group(1, vec![unit("buyer", "x")]), group(2, vec![unit("buyer", "x")])],
        )
        .unwrap();
    assert_eq!(l.reserved_count(1), Some(1));
    assert_eq!(l.reserved_count(2), Some(0));
    assert_eq!(out.refund, vec![coin(500, "x")]);
    let total: u128 = out.refund.iter().chain(out.license_fees.iter()).chain(out.proceeds.iter()).map(|c| c.amount).sum();
    assert_eq!(total, 1500);
}

#[test]
fn setup_refusals() {
    let long = "x".repeat(129);
    let r = EventLedger::instantiate(long.clone(), s("d"), s("c"), vec![], vec![]);
    assert_eq!(r.err(), Some(ContractError::BadEventTitleOrDescription));
    assert!(validate_setup(&"x".repeat(128), &s("d"), &vec![], &vec![]).is_ok());
    let mut bad = scenario_tier();
    bad.max_ticket_limit = 11;
    assert_eq!(validate_guest_details(&vec![bad]), Err(ContractError::BadGuestDetailParams));
    let mut dup = scenario_tier();
    dup.ticket_cost = vec![coin(1, "x"), coin(2, "y"), coin(3, "x")];
    assert_eq!(validate_guest_details(&vec![dup]), Err(ContractError::DuplicateFeeDenom));
    let mut named = scenario_tier();
    named.guest_type = long.clone();
    assert_eq!(validate_guest_details(&vec![named]), Err(ContractError::BadGuestDetailParams));
    let described = EventSegment { stage_description: long, start: 0, end: 1 };
    assert_eq!(validate_event_timeline(&vec![described]), Err(ContractError::BadEventDescriptionLength));
    // the first faulty segment decides
    assert_eq!(
        validate_event_timeline(&vec![seg(0, 10), seg(5, 20), seg(30, 25)]),
        Err(ContractError::OverlappingEventDates)
    );
}

#[test]
fn homie_tickets_recorded_and_claimed() {
    let mut l = ledger(vec![scenario_tier()], vec![seg(0, 1)]);
    l.perform_ticket_purchase(
        &s("buyer"),
        &vec![coin(3000, "x")],
        &vec![group(1, vec![unit("buyer", "x"), unit("friend", "x"), unit("pal", "x")])],
    )
    .unwrap();
    assert_eq!(l.book.homie_tickets.len(), 1);
    assert_eq!(l.book.homie_tickets[0].reserver, "buyer");
    assert_eq!(l.book.homie_tickets[0].tickets, vec![s("friend"), s("pal")]);
    let r = l.perform_ticket_purchase(&s("buyer"), &vec![coin(1000, "x")], &vec![group(1, vec![unit("friend", "x")])]);
    assert_eq!(r.err(), Some(ContractError::DuplicateHomiesTicketAddr));
    assert_eq!(l.perform_claim_ticket_reserved_by_homie(&s("friend"), &s("buyer")), Ok(()));
    assert_eq!(l.book.homie_tickets[0].tickets, vec![s("pal")]);
    assert_eq!(
        l.perform_claim_ticket_reserved_by_homie(&s("friend"), &s("nobody")),
        Err(ContractError::HomieTicketNotFound)
    );
}

#[test]
fn too_many_homie_tickets() {
    let mut l = ledger(vec![tier_x(1, 20, 20, EventSegmentAccessType::SingleSegment { id: 0 })], vec![seg(0, 1)]);
    let names: Vec<String> = (0..11).map(|i| format!("h{}", i)).collect();
    let units: Vec<_> = names.iter().map(|n| unit(n, "x")).collect();
    let r = l.perform_ticket_purchase(&s("buyer"), &vec![coin(11000, "x")], &vec![group(1, units)]);
    assert_eq!(r.err(), Some(ContractError::TooManyHomieTickets));
    let updates: Vec<_> = (0..11).map(|i| ReplaceHomieTicket { old: format!("o{}", i), new: format!("n{}", i) }).collect();
    let weights = vec![None; 11];
    let r = l.perform_update_ticket_wallet(&s("buyer"), Some(1), None, &updates, &weights);
    assert_eq!(r.err(), Some(ContractError::TooManyHomieTickets));
}

#[test]
fn reassign_tickets() {
    let mut l = ledger(vec![scenario_tier()], vec![seg(0, 1)]);
    l.perform_ticket_purchase(
        &s("buyer"),
        &vec![coin(2000, "x")],
        &vec![group(1, vec![unit("buyer", "x"), unit("friend", "x")])],
    )
    .unwrap();
    let r = l.perform_update_ticket_wallet(&s("stranger"), None, None, &vec![], &vec![]);
    assert_eq!(r.err(), Some(ContractError::NoReservedTicketsForGuest));
    let updates = vec![ReplaceHomieTicket { old: s("friend"), new: s("friend2") }];
    let out = l
        .perform_update_ticket_wallet(&s("buyer"), Some(1), Some(s("buyer2")), &updates, &vec![Some(1)])
        .unwrap();
    assert_eq!(
        out.add,
        vec![Member { addr: s("buyer2"), weight: 1 }, Member { addr: s("friend2"), weight: 1 }]
    );
    assert_eq!(out.remove, vec![s("buyer"), s("friend")]);
    assert_eq!(l.book.homie_tickets.len(), 1);
    assert_eq!(l.book.homie_tickets[0].reserver, "buyer2");
    assert_eq!(l.book.homie_tickets[0].tickets, vec![s("friend2")]);
}

#[test]
fn instantiate_salts() {
    let checksum: Vec<u8> = (0u8..32).collect();
    let salt = generate_instantiate_salt2(&checksum, &roster_namespace());
    assert_eq!(
        salt,
        vec![
            99, 13, 205, 41, 102, 196, 51, 102, 145, 18, 84, 72, 187, 178, 91, 79, 244, 18, 164,
            156, 115, 45, 178, 200, 171, 193, 184, 88, 27, 215, 16, 221, 97, 118, 101, 115
        ]
    );
    let guest = guest_roster_salt(&salt);
    assert_eq!(guest[0], 98);
    assert_eq!(guest[1..], salt[1..]);
}

#[test]
fn checkin_digest_binds_address_and_payload() {
    let data = br#"{"event_segment_ids":[0]}"#.to_vec();
    let doc = signing_preamble(&s("guest1"), &data);
    assert_eq!(
        doc,
        r#"{"account_number":"0","chain_id":"","fee":{"amount":[],"gas":"0"},"memo":"","msgs":[{"type":"sign/MsgSignData","value":{"data":"eyJldmVudF9zZWdtZW50X2lkcyI6WzBdfQ==","signer":"guest1"}}],"sequence":"0"}"#
    );
    assert_eq!(doc, sign_doc(&s("guest1"), &s("eyJldmVudF9zZWdtZW50X2lkcyI6WzBdfQ==")));
    let digest = checkin_signing_digest(&s("guest1"), &data);
    assert_eq!(
        digest,
        vec![
            237, 148, 215, 139, 46, 9, 194, 183, 127, 175, 195, 201, 229, 108, 222, 93, 34, 122,
            71, 255, 107, 22, 34, 114, 111, 57, 182, 5, 38, 57, 17, 188
        ]
    );
    assert_ne!(digest, checkin_signing_digest(&s("guest2"), &data));
}

#[test]
fn license_lookup() {
    assert_eq!(get_license_fee(&s("juno-1")), Ok(coin(1000000, "ujuno")));
    assert_eq!(get_license_fee(&s("bitsong-2b")), Ok(coin(420000000, "ubtsg")));
    assert_eq!(get_license_fee(&s("phoenix-1")), Ok(coin(420000000, "uluna")));
    assert_eq!(get_license_fee(&s("mock")), Err(ContractError::NoLicenseForChain));
    assert_eq!(get_license_addr(&s("juno-1")), Ok(s("juno1tzz4sp3y8l5lf76qy0ydzjwlntcu8zg7t63p68")));
    assert_eq!(get_license_addr(&s("cosmoshub-4")), Err(ContractError::NoLicenseForChain));
}

#[test]
fn segments_listed_latest_first() {
    let l = ledger(vec![scenario_tier()], vec![seg(0, 10), seg(10, 20)]);
    let segs = l.event_segments();
    assert_eq!(segs.len(), 2);
    assert_eq!(segs[0].seg_id, 1);
    assert_eq!(segs[0].segment.start, 10);
    assert_eq!(segs[1].seg_id, 0);
}

#[test]
fn refund_hook_changes_nothing() {
    let mut l = ledger(vec![scenario_tier()], vec![seg(0, 1)]);
    l.perform_ticket_purchase(&s("buyer"), &vec![coin(1000, "x")], &vec![group(1, vec![unit("friend", "x")])])
        .unwrap();
    assert_eq!(l.refund_unconfirmed_ticket_purchase(&s("buyer"), &vec![s("friend")]), Ok(()));
    assert_eq!(l.reserved_count(1), Some(1));
    assert_eq!(l.book.homie_tickets[0].tickets, vec![s("friend")]);
}
