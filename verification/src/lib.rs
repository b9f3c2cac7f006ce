//! Trust-verification core of a blockchain light client.
//!
//! The crate tracks the verification status of light blocks, records the
//! trace of evidence used to justify each verified height, and extends trust
//! from a known-good anchor to a distant target by recursive bisection over
//! the height range.

pub mod bisection;
pub mod state;
pub mod store;
pub mod trust;
pub mod types;
