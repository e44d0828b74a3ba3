use xmodules::contract::ContractStorage;
use xmodules::fee_manager::FeeManagerModule;
use xmodules::payment::Payout;

const FEE_TOKEN: &[u8] = b"TKN-1238j5";
const FEE_AMOUNT: u128 = 100_000;
const OWNER: &[u8] = b"contract-owner-address";

fn setup_with_fee(token: &[u8], fee: u128) -> ContractStorage {
    let mut sc = ContractStorage::new();
    let payout = sc.set_fee_settings(&OWNER.to_vec(), token.to_vec(), fee);
    assert_eq!(payout, None);
    sc
}

#[test]
fn test_set_fee_settings() {
    let sc = setup_with_fee(FEE_TOKEN, FEE_AMOUNT);
    assert_eq!(sc.accumulated_fees(), 0);
    assert_eq!(sc.fee_token(), FEE_TOKEN.to_vec());
    assert_eq!(sc.fee_amount(), FEE_AMOUNT);
}

#[test]
fn test_set_fee_settings_and_withdraw() {
    let mut sc = setup_with_fee(FEE_TOKEN, FEE_AMOUNT);
    sc.set_accumulated_fees(FEE_AMOUNT * 4);
    assert_eq!(sc.accumulated_fees(), FEE_AMOUNT * 4);

    let payout = sc.set_fee_settings(&OWNER.to_vec(), b"NEW-s8k1l0".to_vec(), FEE_AMOUNT);

    // the owner receives all fees held, in the old fee token
    assert_eq!(
        payout,
        Some(Payout { to: OWNER.to_vec(), token_identifier: FEE_TOKEN.to_vec(), amount: FEE_AMOUNT * 4 })
    );
    assert_eq!(sc.accumulated_fees(), 0);
    assert_eq!(sc.fee_token(), b"NEW-s8k1l0".to_vec());
}

#[test]
fn test_withdraw() {
    let mut sc = setup_with_fee(FEE_TOKEN, FEE_AMOUNT);
    sc.set_accumulated_fees(FEE_AMOUNT * 4);

    let payout = sc.withdraw_fees(&OWNER.to_vec());
    assert_eq!(
        payout,
        Some(Payout { to: OWNER.to_vec(), token_identifier: FEE_TOKEN.to_vec(), amount: FEE_AMOUNT * 4 })
    );
    assert_eq!(sc.accumulated_fees(), 0);
}
