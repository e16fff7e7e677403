use icp_bd_backend::clients::{
    canister_status_status, get_empty_vec, IcpXdrConversionRate,
    IcpXdrConversionRateCertifiedResponse, WICPError,
};
use icp_bd_backend::config::{init, Currency, DepositErr};
use icp_bd_backend::generate_random_numbers;
use icp_bd_backend::types::UserRechargeICPRecordInfo;

#[test]
fn generate_random_numbers_is_the_placeholder() {
    assert_eq!(generate_random_numbers(), 999);
}

#[test]
fn get_empty_vec_is_empty() {
    assert_eq!(get_empty_vec(), Vec::<i32>::new());
}

#[test]
fn init_binds_the_wellknown_collaborators() {
    let state = init();
    assert_eq!(state.icp_canister, "ryjl3-tyaaa-aaaaa-aaaba-cai");
    assert_eq!(state.xtc_canister, "aanaa-xaaaa-aaaah-aaeiq-cai");
    assert_eq!(state.wicp_canister, "utozz-siaaa-aaaam-qaaxq-cai");
    assert_eq!(state.sonic_swap_canister, "3xwpq-ziaaa-aaaah-qcn4a-cai");
    assert_eq!(state.nns_cycles_minting_canister, "rkp4c-7iaaa-aaaaa-aaaca-cai");
    assert_eq!(state.black_hole_canister, "e3mmv-5qaaa-aaaah-aadma-cai");
}

#[test]
fn token_id_by_currency_reads_the_matching_field() {
    let state = init();
    assert_eq!(state.token_id_by_currency(Currency::ICP), state.icp_canister);
    assert_eq!(state.token_id_by_currency(Currency::XTC), state.xtc_canister);
    assert_eq!(state.token_id_by_currency(Currency::WICP), state.wicp_canister);
    assert_eq!(state.token_id_by_currency(Currency::SONIC), state.sonic_swap_canister);
    assert_eq!(
        state.token_id_by_currency(Currency::NnsCyclesMinting),
        state.nns_cycles_minting_canister
    );
    assert_eq!(state.token_id_by_currency(Currency::BlackHole), state.black_hole_canister);
}

#[test]
fn collaborator_answer_shapes_hold_plain_values() {
    let rate = IcpXdrConversionRate { xdr_permyriad_per_icp: 41390, timestamp_seconds: 1_650_000_000 };
    let certified = IcpXdrConversionRateCertifiedResponse {
        certificate: vec![1, 2, 3],
        data: rate,
        hash_tree: vec![],
    };
    assert_eq!(certified.data.xdr_permyriad_per_icp, 41390);
    assert_eq!(certified.certificate.len(), 3);
    assert_eq!(certified.hash_tree.len(), 0);
    assert_eq!(canister_status_status::running, canister_status_status::running);
    assert_ne!(WICPError::InsufficientBalance, WICPError::Unauthorized);
    assert_ne!(DepositErr::BalanceLow, DepositErr::TransferFailure);
    let record = UserRechargeICPRecordInfo { recharge_time: 7, recharge_amount: 11 };
    assert_eq!(record, UserRechargeICPRecordInfo { recharge_time: 7, recharge_amount: 11 });
}
