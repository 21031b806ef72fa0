//! A caching monitor for validator uptime: per-validator cache cells with
//! monotonic merge, lazily connected source handles, a tiered refresh round,
//! a minimum-interval poll gate and a pure metrics projection.

pub mod app;
pub mod client;
pub mod gate;
pub mod latest;
pub mod options;
pub mod report;

pub use app::{App, Round};
pub use client::{Client, Node};
pub use gate::PollGate;
pub use latest::{BondingState, IdentityKey, Latest, State, Status, Uptime};
pub use options::Options;
pub use report::{report, success_info, Report, ValidatorReport};
