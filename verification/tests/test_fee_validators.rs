use xmodules::contract::ContractStorage;
use xmodules::fee_manager::FeeManagerModule;
use xmodules::fee_payment_validator::FeePaymentValidatorModule;
use xmodules::payment::EsdtTokenPayment;

const FEE_TOKEN: &[u8] = b"TKN-1238j5";
const FEE_AMOUNT: u128 = 100_000;
const OWNER: &[u8] = b"contract-owner-address";

fn setup_with_fee(token: &[u8], fee: u128) -> ContractStorage {
    let mut sc = ContractStorage::new();
    sc.set_fee_settings(&OWNER.to_vec(), token.to_vec(), fee);
    sc
}

fn payment(token: &[u8], value: u128) -> EsdtTokenPayment {
    EsdtTokenPayment { token_identifier: token.to_vec(), token_nonce: 0, amount: value }
}

/// Runs the fee processing on the payments and compares the outcome with the
/// expected remaining payments or the expected error message.
fn process_fee_payment_context(
    sc: &mut ContractStorage,
    payments: Vec<EsdtTokenPayment>,
    expected_out_payment: Vec<EsdtTokenPayment>,
    expected_err: Option<&str>,
) {
    match (sc.process_fee_from_payments(payments), expected_err) {
        (Ok(out_payments), None) => {
            assert_eq!(out_payments.len(), expected_out_payment.len());
            for (i, out_payment) in out_payments.iter().enumerate() {
                assert_eq!(out_payment.amount, expected_out_payment[i].amount);
            }
        }
        (Err(e), Some(msg)) => assert_eq!(e.message(), msg),
        (other, expected) => panic!("unexpected outcome {:?}, expected error {:?}", other, expected),
    }
}

#[test]
fn test_no_fee_payment() {
    let mut sc = setup_with_fee(FEE_TOKEN, FEE_AMOUNT);
    process_fee_payment_context(&mut sc, vec![], vec![], Some("Invalid fee amount provided"));
    assert_eq!(sc.accumulated_fees(), 0);
}

#[test]
fn test_fee_is_zero() {
    let mut sc = setup_with_fee(FEE_TOKEN, 0);
    process_fee_payment_context(&mut sc, vec![], vec![], None);
    assert_eq!(sc.accumulated_fees(), 0);
}

#[test]
fn test_one_payment_is_fee_total() {
    let mut sc = setup_with_fee(FEE_TOKEN, FEE_AMOUNT);
    let payments = vec![payment(FEE_TOKEN, FEE_AMOUNT)];
    process_fee_payment_context(&mut sc, payments, vec![], None);
    assert_eq!(sc.accumulated_fees(), FEE_AMOUNT);
}

#[test]
fn test_one_payment_subtract_fee() {
    let mut sc = setup_with_fee(FEE_TOKEN, FEE_AMOUNT);
    let payments = vec![payment(FEE_TOKEN, FEE_AMOUNT + 50_00)];
    let expected_payments = vec![payment(FEE_TOKEN, 50_00)];
    process_fee_payment_context(&mut sc, payments, expected_payments, None);
    assert_eq!(sc.accumulated_fees(), FEE_AMOUNT);
}

#[test]
fn test_one_payment_not_enough_fees() {
    let mut sc = setup_with_fee(FEE_TOKEN, FEE_AMOUNT);
    let payments = vec![payment(FEE_TOKEN, FEE_AMOUNT - 50_000)];
    process_fee_payment_context(&mut sc, payments, vec![], Some("Not enough amount to pay the fee"));
    assert_eq!(sc.accumulated_fees(), 0);
}

#[test]
fn test_multiple_payments_subtract_fee_payment() {
    let mut sc = setup_with_fee(FEE_TOKEN, FEE_AMOUNT);
    let payments = vec![
        payment(FEE_TOKEN, FEE_AMOUNT),
        payment(b"TKN-aji8kl", 100_000),
        payment(b"STK-aji8kl", 300_000),
    ];
    let expected_payments = vec![payment(b"TKN-aji8kl", 100_000), payment(b"STK-aji8kl", 300_000)];
    process_fee_payment_context(&mut sc, payments, expected_payments, None);
    assert_eq!(sc.accumulated_fees(), 100_000);
}

#[test]
fn test_multiple_payments_subtract_fee_from_payment() {
    let mut sc = setup_with_fee(FEE_TOKEN, FEE_AMOUNT);
    let payments = vec![
        payment(FEE_TOKEN, FEE_AMOUNT + 50_000),
        payment(b"TKN-aji8kl", 100_000),
        payment(b"STK-aji8kl", 300_000),
    ];
    let expected_payments = vec![
        payment(FEE_TOKEN, 50_000),
        payment(b"TKN-aji8kl", 100_000),
        payment(b"STK-aji8kl", 300_000),
    ];
    process_fee_payment_context(&mut sc, payments, expected_payments, None);
    assert_eq!(sc.accumulated_fees(), 100_000);
}

#[test]
fn test_multiple_payments_not_enough_fees() {
    let mut sc = setup_with_fee(FEE_TOKEN, FEE_AMOUNT);
    let payments = vec![
        payment(FEE_TOKEN, 50_000),
        payment(b"TKN-aji8kl", 100_000),
        payment(b"STK-aji8kl", 300_000),
    ];
    process_fee_payment_context(&mut sc, payments, vec![], Some("Not enough amount to pay the fee"));
    assert_eq!(sc.accumulated_fees(), 0);
}

#[test]
fn test_multiple_payments_no_fee_payment() {
    let mut sc = setup_with_fee(FEE_TOKEN, FEE_AMOUNT);
    let payments = vec![payment(b"TKN-aji8kl", 100_000), payment(b"STK-aji8kl", 300_000)];
    process_fee_payment_context(&mut sc, payments, vec![], Some("No fee payment provided"));
    assert_eq!(sc.accumulated_fees(), 0);
}
