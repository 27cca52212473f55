//! The economic engine of a settlement simulation: markets with order matching and
//! price discovery, a currency ledger, resource-funded construction, a labor
//! allocation controller, and the agent roster they act on. Money is counted in mils,
//! a thousandth of a coin.

pub mod agent;
pub mod buildings;
pub mod commissions;
mod chance;
pub mod currency;
pub mod financing;
pub mod funds;
pub mod goals;
mod ids;
pub mod labor;
pub mod market;
pub mod market_system;
pub mod matching;
pub mod pricing;
pub mod resources;
pub mod roster;
pub mod schedule;
pub mod types;
pub mod weather;
pub mod work;
