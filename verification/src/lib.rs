//! A single-user portfolio ledger with a conditional-order execution engine.
//!
//! The crate tracks cash, holdings, executed trades and pending conditional
//! orders, and decides when a pending order may be converted into a trade
//! against a supplied market price.  All amounts are exact fixed-point
//! decimals; no binary floating point is used anywhere in the ledger.

pub mod app_state;
pub mod book;
mod clock;
pub mod engine;
pub mod errors;
pub mod holdings;
pub mod import;
pub mod input;
pub mod laws;
pub mod money;
pub mod orders;
pub mod output;
pub mod text;
