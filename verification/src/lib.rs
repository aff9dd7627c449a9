//! Verified core of the Stellar Nebula Nomad contract modules: the achievement
//! leaderboard, the upgradeable-proxy state machine and the resource minter.
//!
//! Each module models the part of the contract environment it touches (its
//! storage entries, the events it publishes, the authorizations it demands)
//! as a plain value, and every operation is specified as a step on that model.
pub mod values;
pub mod proxy;
pub mod achievements;
pub mod resource_minter;
mod staging;
