use xmodules::contract::ContractStorage;
use xmodules::multi_token_payment::MultiTokenPayModule;
use xmodules::payment::{EgldOrEsdtTokenIdentifier, EsdtTokenPayment};

const ESDT_TOKEN: &[u8] = b"TST-j28ml0";
const SECOND_TOKEN: &[u8] = b"TKN-9b4sdo";

fn transfer(token: &[u8], value: u128) -> EsdtTokenPayment {
    EsdtTokenPayment { token_identifier: token.to_vec(), token_nonce: 0, amount: value }
}

fn add_payment_token_esdt(sc: &mut ContractStorage, token: &[u8], amount: u128) {
    assert_eq!(sc.add_payment_token(EgldOrEsdtTokenIdentifier::esdt(token.to_vec()), amount), Ok(()));
}

fn check(result: Result<(), xmodules::multi_token_payment::PaymentError>, expected_err: Option<&str>) {
    match (result, expected_err) {
        (Ok(()), None) => {}
        (Err(e), Some(msg)) => assert_eq!(e.message(), msg),
        (other, expected) => panic!("unexpected outcome {:?}, expected error {:?}", other, expected),
    }
}

#[test]
fn test_add_new_payment_token() {
    let mut sc = ContractStorage::new();
    add_payment_token_esdt(&mut sc, ESDT_TOKEN, 1_000_000_000u128);
    assert_eq!(sc.add_payment_token(EgldOrEsdtTokenIdentifier::egld(), 1_000_000_000_000_000_000u128), Ok(()));
    assert_eq!(sc.accepted_tokens(&EgldOrEsdtTokenIdentifier::esdt(ESDT_TOKEN.to_vec())), 1_000_000_000);
    assert_eq!(sc.accepted_tokens(&EgldOrEsdtTokenIdentifier::egld()), 1_000_000_000_000_000_000);
}

#[test]
fn test_remove_payment_token() {
    let mut sc = ContractStorage::new();
    add_payment_token_esdt(&mut sc, ESDT_TOKEN, 1_000_000_000u128);
    sc.remove_payment_token(EgldOrEsdtTokenIdentifier::esdt(ESDT_TOKEN.to_vec()));
    sc.remove_payment_token(EgldOrEsdtTokenIdentifier::esdt(SECOND_TOKEN.to_vec()));
    assert_eq!(sc.accepted_tokens(&EgldOrEsdtTokenIdentifier::esdt(ESDT_TOKEN.to_vec())), 0);
}

#[test]
fn test_require_valid_payment() {
    let mut sc = ContractStorage::new();
    check(
        sc.require_valid_payment(0, &vec![transfer(ESDT_TOKEN, 1_000_000u128)]),
        Some("Payment token not accepted"),
    );

    add_payment_token_esdt(&mut sc, ESDT_TOKEN, 1_000_000_000u128);
    check(sc.require_valid_payment(0, &vec![transfer(ESDT_TOKEN, 1_000_000u128)]), Some("Invalid payment amount"));

    check(sc.require_valid_payment(0, &vec![transfer(ESDT_TOKEN, 1_000_000_000u128)]), None);
}

#[test]
fn test_require_valid_payments() {
    let mut sc = ContractStorage::new();
    add_payment_token_esdt(&mut sc, ESDT_TOKEN, 1_000_000u128);
    add_payment_token_esdt(&mut sc, SECOND_TOKEN, 1_000_000u128);

    let payments = vec![transfer(ESDT_TOKEN, 1_000_000u128), transfer(SECOND_TOKEN, 1_000_000u128)];

    check(sc.require_valid_payments::<3>(&payments), Some("incorrect number of ESDT transfers"));
    check(sc.require_valid_payments::<2>(&payments), None);
}
