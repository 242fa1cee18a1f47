//! A verified ticket-based lottery state machine.
//!
//! Participants purchase tickets while a sale round is open; at draw time one
//! previously sold ticket is selected by a pseudo-random index and the round
//! resets. The host environment supplies the caller's identity, the tendered
//! amount and the current time as plain values; this crate holds the state
//! machine itself: identifier generation under a distinct-digit alphabet, the
//! sale ledger, and the open/active lifecycle with its invariants.

pub mod digits;
pub mod lottery;

pub use crate::lottery::{AccountId, Balance, Error, Lottery, Timestamp};
