//! A concentrated-liquidity market maker (CLMM) engine.
//!
//! Liquidity providers commit capital to price ranges bounded by ticks;
//! traders swap between the two assets of a pool against the liquidity that
//! is active at the current price, paying a fee that is attributed to
//! providers in proportion to their active participation.
//!
//! The engine is a pure state machine: every operation takes the pool store
//! explicitly, validates its preconditions, mutates tick and position
//! records, and reports the token amounts to settle.  Settlement itself is
//! expressed as transfer intents against an external ledger service; the
//! `ledger` module gives the reference model of that service.

pub mod counter;
pub mod errors;
pub mod fixed;
pub mod ledger;
pub mod pool;
pub mod position;
pub mod settle;
pub mod swap;
pub mod tick;
