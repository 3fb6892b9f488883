//! Monitoring pipeline for host-ban logs: validates storage configuration,
//! extracts banned addresses for a target date from a line-oriented log, and
//! models idempotent persistence of the extracted records.

pub mod config;
pub mod date;
pub mod extract;
pub mod host;
pub mod orchestrator;
pub mod storage;

pub use config::Config;
pub use config::Violation;
