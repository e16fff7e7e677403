//! Deployment configuration: the identities (principal texts) of the
//! collaborator canisters, and the lookup from currency to canister.
use vstd::prelude::*;

verus! {

/// The currencies the backend can address, each served by one collaborator
/// canister.
#[derive(Clone, Copy, Debug, PartialEq, Eq, Structural)]
pub enum Currency {
    ICP,
    XTC,
    WICP,
    SONIC,
    NnsCyclesMinting,
    BlackHole,
}

/// Why a deposit could not be made.
#[derive(Clone, Copy, Debug, PartialEq, Eq, Structural)]
pub enum DepositErr {
    BalanceLow,
    TransferFailure,
}

/// The collaborator canisters of one deployment, each as its principal text.
#[derive(Debug)]
pub struct State {
    pub icp_canister: String,
    pub xtc_canister: String,
    pub wicp_canister: String,
    pub sonic_swap_canister: String,
    pub nns_cycles_minting_canister: String,
    pub black_hole_canister: String,
}

impl Clone for State {
    fn clone(&self) -> (r: Self)
        ensures
            r == *self,
    {
        State {
            icp_canister: self.icp_canister.clone(),
            xtc_canister: self.xtc_canister.clone(),
            wicp_canister: self.wicp_canister.clone(),
            sonic_swap_canister: self.sonic_swap_canister.clone(),
            nns_cycles_minting_canister: self.nns_cycles_minting_canister.clone(),
            black_hole_canister: self.black_hole_canister.clone(),
        }
    }
}

/// Which canister serves a currency.
pub open spec fn token_id_spec(s: State, currency: Currency) -> Seq<char> {
    match currency {
        Currency::XTC => s.xtc_canister@,
        Currency::WICP => s.wicp_canister@,
        Currency::ICP => s.icp_canister@,
        Currency::SONIC => s.sonic_swap_canister@,
        Currency::NnsCyclesMinting => s.nns_cycles_minting_canister@,
        Currency::BlackHole => s.black_hole_canister@,
    }
}

impl State {
    /// The canister identity that serves `currency`.
    pub fn token_id_by_currency(&self, currency: Currency) -> (r: String)
        ensures
            r@ == token_id_spec(*self, currency),
    {
        match currency {
            Currency::XTC => self.xtc_canister.clone(),
            Currency::WICP => self.wicp_canister.clone(),
            Currency::ICP => self.icp_canister.clone(),
            Currency::SONIC => self.sonic_swap_canister.clone(),
            Currency::NnsCyclesMinting => self.nns_cycles_minting_canister.clone(),
            Currency::BlackHole => self.black_hole_canister.clone(),
        }
    }
}

/// The identities of the well-known mainnet collaborators.
pub fn init() -> (r: State)
    ensures
        r.icp_canister@ == "ryjl3-tyaaa-aaaaa-aaaba-cai"@,
        r.xtc_canister@ == "aanaa-xaaaa-aaaah-aaeiq-cai"@,
        r.wicp_canister@ == "utozz-siaaa-aaaam-qaaxq-cai"@,
        r.sonic_swap_canister@ == "3xwpq-ziaaa-aaaah-qcn4a-cai"@,
        r.nns_cycles_minting_canister@ == "rkp4c-7iaaa-aaaaa-aaaca-cai"@,
        r.black_hole_canister@ == "e3mmv-5qaaa-aaaah-aadma-cai"@,
{
    State {
        icp_canister: String::from_str("ryjl3-tyaaa-aaaaa-aaaba-cai"),
        xtc_canister: String::from_str("aanaa-xaaaa-aaaah-aaeiq-cai"),
        wicp_canister: String::from_str("utozz-siaaa-aaaam-qaaxq-cai"),
        sonic_swap_canister: String::from_str("3xwpq-ziaaa-aaaah-qcn4a-cai"),
        nns_cycles_minting_canister: String::from_str("rkp4c-7iaaa-aaaaa-aaaca-cai"),
        black_hole_canister: String::from_str("e3mmv-5qaaa-aaaah-aadma-cai"),
    }
}

} // verus!
