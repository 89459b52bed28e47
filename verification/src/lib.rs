//! Availability monitoring engine: a registry of watched links per owner,
//! pure scheduling and classification logic for periodic reachability
//! probes, and the command-path rules (URL normalization, validation,
//! duplicate prevention, selective deletion) that keep the registry and
//! the durable link store consistent.

pub mod checker;
pub mod classifier;
pub mod registry;
pub mod scheduler;
pub mod selection;
pub mod website;
pub mod website_checker;

pub use checker::Checker;
