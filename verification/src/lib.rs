//! Accounting engine for a pooled, over-collateralized lending protocol.
//!
//! The crate tracks per-asset deposit and loan pools, rolls interest forward
//! lazily with a utilization-based rate curve, converts amounts to and from
//! proportional shares, values positions across pools against a price
//! snapshot, and settles liquidations.  All arithmetic is deterministic
//! fixed-point; custody of funds, identity verification and the price oracle
//! are external collaborators that hand the engine plain values.

pub mod admin;
pub mod calculations;
pub mod decimal;
pub mod errors;
pub mod pool;
pub mod pool_parameters;
pub mod protocol;
pub mod table;
pub mod user;
