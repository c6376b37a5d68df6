//! Reservation, settlement and check-in engine for time-boxed events.
//!
//! Guest tiers and the segment timeline are validated once at setup
//! (`setup`, `ledger`); purchases are admitted against tier capacity and
//! settled with a flat license fee (`purchase`, `settlement`); signed
//! check-ins mark attendance exactly once per guest and segment (`checkin`,
//! `signing`); tickets bought for others can be claimed or reassigned
//! (`delegation`).
pub mod types;
pub mod settlement;
pub mod setup;
pub mod search;
pub mod ledger;
pub mod purchase;
pub mod checkin;
pub mod delegation;
pub mod signing;
pub mod license;
