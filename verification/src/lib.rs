//! A verified multi-index registry of organizations, their members and their
//! monitored canisters, with a derived global rollup of thresholds and a
//! reverse index from canister to the organizations that track it.
use vstd::prelude::*;

pub mod alist;
pub mod cascade;
pub mod clients;
pub mod config;
pub mod jars;
pub mod laws;
pub mod members;
pub mod ranking;
pub mod store;
pub mod types;

verus! {

/// Placeholder for the assumed observed balance used while no oracle answers.
pub fn generate_random_numbers() -> (r: u64)
    ensures
        r == 999u64,
{
    999u64
}

} // verus!
