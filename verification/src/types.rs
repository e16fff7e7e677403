//! The record types held by the store, and the error taxonomy of the
//! user-facing operations.
use vstd::prelude::*;

verus! {

/// Why a user-facing operation was refused.
#[derive(Clone, Copy, Debug, PartialEq, Eq, Structural)]
pub enum OrgError {
    /// The organization, member or canister addressed does not exist.
    NotFound,
    /// A creation collided with something already registered.
    AlreadyExists,
    /// The member to add is already in the organization.
    AlreadyMember,
    /// The caller is not the owner of the organization.
    Unauthorized,
    /// An external collaborator failed; nothing was changed.
    ExternalUnavailable,
}

/// A member of an organization: a display nickname and the time the owner
/// inserted it (immutable thereafter).
#[derive(Debug)]
pub struct MemberInfo {
    pub nickname: String,
    pub instime: u64,
}

impl Clone for MemberInfo {
    fn clone(&self) -> (r: Self)
        ensures
            r == *self,
    {
        MemberInfo { nickname: self.nickname.clone(), instime: self.instime }
    }
}

/// A monitored canister as one organization tracks it.
#[derive(Debug)]
pub struct CanisterInfo {
    pub nickname: String,
    /// When the canister was added under the organization.
    pub instime: u64,
    /// When its balance was last observed.
    pub updtime: u64,
    /// The balance seen at that observation.
    pub cycles_balance: u64,
    /// How often the balance should be polled.
    pub time_interval: u64,
    /// The organization's floor threshold.
    pub cycles_minimum: u64,
    /// The organization's ceiling threshold.
    pub cycles_highest: u64,
}

impl Clone for CanisterInfo {
    fn clone(&self) -> (r: Self)
        ensures
            r == *self,
    {
        CanisterInfo {
            nickname: self.nickname.clone(),
            instime: self.instime,
            updtime: self.updtime,
            cycles_balance: self.cycles_balance,
            time_interval: self.time_interval,
            cycles_minimum: self.cycles_minimum,
            cycles_highest: self.cycles_highest,
        }
    }
}

/// The global rollup entry of a canister, merged over every organization that
/// ever tracked it: tightest intervals and thresholds, freshest observation.
#[derive(Clone, Copy, Debug, PartialEq, Eq, Structural)]
pub struct PubilcCanisterInfo {
    pub updtime: u64,
    pub cycles_balance: u64,
    pub time_interval: u64,
    pub cycles_minimum: u64,
    pub cycles_highest: u64,
}

/// A record of a recharge made by a user.
#[derive(Clone, Copy, Debug, PartialEq, Eq, Structural)]
pub struct UserRechargeICPRecordInfo {
    pub recharge_time: u64,
    pub recharge_amount: u64,
}

/// One reverse-index element: an organization tracking a canister, with the
/// floor threshold it configured.
#[derive(Debug)]
pub struct CanisterMappingOrganizationInfo {
    pub organize_name: String,
    pub min_cycles: u64,
}

impl Clone for CanisterMappingOrganizationInfo {
    fn clone(&self) -> (r: Self)
        ensures
            r == *self,
    {
        CanisterMappingOrganizationInfo {
            organize_name: self.organize_name.clone(),
            min_cycles: self.min_cycles,
        }
    }
}

/// Which way the reverse index is being touched.
#[derive(Clone, Copy, Debug, PartialEq, Eq, Structural)]
pub enum Opts {
    ADD,
    UPDATE,
    DELETE,
}

} // verus!
