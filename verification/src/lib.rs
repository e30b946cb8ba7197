//! Crypto in, power out: the verified core of a payment-driven power switch.
//!
//! A payment observed in the wallet becomes an energy credit for the device
//! that owns the paid address, exactly once; the device's controller turns
//! the credit into switch commands by following the energy meter; and a
//! journal records the progress so that an interrupted delivery resumes
//! with what was still owed.
//!
//! Energy is counted in hundredths of a watt-hour and money in piconero,
//! both as integers, so that every rule in this crate is exact.

pub mod common;
pub mod seen;
pub mod text;
pub mod amount;
pub mod journal;
pub mod config;
pub mod shelly;
pub mod args;
pub mod monero;
pub mod router;
pub mod controller;
pub mod recovery;
