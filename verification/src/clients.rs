//! The data shapes of the external collaborators' answers, as plain values.
//! The calls themselves are inter-canister I/O and live outside the library.
use vstd::prelude::*;

verus! {

/// The run state a status query reports for a canister.
#[allow(non_camel_case_types)]
#[derive(Clone, Copy, Debug, PartialEq, Eq, Structural)]
pub enum canister_status_status {
    stopped,
    stopping,
    running,
}

/// The certified conversion-rate answer of the cycles-minting collaborator.
#[derive(Debug)]
pub struct IcpXdrConversionRateCertifiedResponse {
    pub certificate: Vec<u8>,
    pub data: IcpXdrConversionRate,
    pub hash_tree: Vec<u8>,
}

/// The conversion rate itself: permyriad of XDR per ICP, and when it was set.
#[derive(Clone, Copy, Debug, PartialEq, Eq, Structural)]
pub struct IcpXdrConversionRate {
    pub xdr_permyriad_per_icp: u64,
    pub timestamp_seconds: u64,
}

/// Why a wrapped-ICP operation failed.
#[derive(Clone, Copy, Debug, PartialEq, Eq, Structural)]
pub enum WICPError {
    InsufficientAllowance,
    InsufficientBalance,
    ErrorOperationStyle,
    Unauthorized,
    LedgerTrap,
    ErrorTo,
    Other,
    BlockUsed,
    AmountTooSmall,
}

/// An empty list of readings.
pub fn get_empty_vec() -> (r: Vec<i32>)
    ensures
        r@ == Seq::<i32>::empty(),
{
    let empty_vec: Vec<i32> = Vec::new();
    empty_vec
}

} // verus!
