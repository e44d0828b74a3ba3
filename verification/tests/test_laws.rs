use xmodules::contract::ContractStorage;
use xmodules::fee_manager::FeeManagerModule;
use xmodules::fee_payment_validator::{FeeError, FeePaymentValidatorModule};
use xmodules::multi_token_payment::{egld_or_single_fungible_esdt, MultiTokenPayModule, PaymentError};
use xmodules::payment::{EgldOrEsdtTokenIdentifier, EsdtTokenPayment, Payout};
use xmodules::referrals::{ReferralError, ReferralModule, TierDetails, TierDetailsArg};
use xmodules::storage::{bytes_eq, ByteMap};

const OWNER: &[u8] = b"contract-owner-address";
const USER: &[u8] = b"second-user-address";
const FEE_TOKEN: &[u8] = b"TKN-1238j5";

fn owner() -> Vec<u8> {
    OWNER.to_vec()
}

fn payment(token: &[u8], nonce: u64, value: u128) -> EsdtTokenPayment {
    EsdtTokenPayment { token_identifier: token.to_vec(), token_nonce: nonce, amount: value }
}

fn tiers(list: Vec<(&[u8], u128, u64)>) -> Vec<TierDetailsArg> {
    list.into_iter().map(|(n, v, p)| (n.to_vec(), v, p)).collect()
}

fn referral_setup() -> ContractStorage {
    let mut sc = ContractStorage::new();
    sc.add_tier_details(tiers(vec![(b"bronze", 0, 500), (b"silver", 100, 1_000), (b"gold", 1_000, 2_000)]))
        .unwrap();
    sc.register_referral_tag(&owner(), b"tag1".to_vec()).unwrap();
    sc.set_rewards_token(b"RWD-8j5bp0".to_vec());
    sc
}

// ---- storage ----

#[test]
fn byte_map_reads_back_what_was_written() {
    let mut m: ByteMap<u64> = ByteMap::new();
    m.insert(b"a".to_vec(), 1);
    m.insert(b"b".to_vec(), 2);
    m.insert(b"a".to_vec(), 3);
    assert_eq!(m.get(&b"a".to_vec()), Some(&3));
    assert_eq!(m.get(&b"b".to_vec()), Some(&2));
    m.remove(&b"a".to_vec());
    assert!(!m.contains_key(&b"a".to_vec()));
    assert!(m.contains_key(&b"b".to_vec()));
}

#[test]
fn bytes_eq_compares_contents() {
    assert!(bytes_eq(&b"TKN-1".to_vec(), &b"TKN-1".to_vec()));
    assert!(!bytes_eq(&b"TKN-1".to_vec(), &b"TKN-2".to_vec()));
    assert!(!bytes_eq(&b"TKN".to_vec(), &b"TKN-1".to_vec()));
}

#[test]
fn egld_is_stored_as_its_representation() {
    assert_eq!(EgldOrEsdtTokenIdentifier::egld().encode(), b"EGLD".to_vec());
    assert_eq!(EgldOrEsdtTokenIdentifier::esdt(b"TKN-1".to_vec()).encode(), b"TKN-1".to_vec());
    assert!(EgldOrEsdtTokenIdentifier::egld().is_egld());
}

// ---- fee manager ----

#[test]
fn withdrawing_twice_pays_once() {
    let mut sc = ContractStorage::new();
    sc.set_fee_settings(&owner(), FEE_TOKEN.to_vec(), 10);
    sc.set_accumulated_fees(70);
    assert_eq!(
        sc.withdraw_fees(&owner()),
        Some(Payout { to: owner(), token_identifier: FEE_TOKEN.to_vec(), amount: 70 })
    );
    assert_eq!(sc.withdraw_fees(&owner()), None);
    assert_eq!(sc.accumulated_fees(), 0);
}

#[test]
fn same_fee_token_keeps_accumulated_fees() {
    let mut sc = ContractStorage::new();
    sc.set_fee_settings(&owner(), FEE_TOKEN.to_vec(), 10);
    sc.set_accumulated_fees(70);
    assert_eq!(sc.set_fee_settings(&owner(), FEE_TOKEN.to_vec(), 20), None);
    assert_eq!(sc.accumulated_fees(), 70);
    assert_eq!(sc.fee_amount(), 20);
}

#[test]
fn new_fee_token_without_fees_pays_nothing() {
    let mut sc = ContractStorage::new();
    sc.set_fee_settings(&owner(), FEE_TOKEN.to_vec(), 10);
    assert_eq!(sc.set_fee_settings(&owner(), b"NEW-s8k1l0".to_vec(), 20), None);
    assert_eq!(sc.fee_token(), b"NEW-s8k1l0".to_vec());
}

// ---- fee payment validator ----

#[test]
fn fee_processing_conserves_amounts() {
    let mut sc = ContractStorage::new();
    sc.set_fee_settings(&owner(), FEE_TOKEN.to_vec(), 100);
    let payments = vec![payment(b"AAA-1", 0, 7), payment(FEE_TOKEN, 0, 150), payment(b"BBB-2", 0, 9)];
    let out = sc.process_fee_from_payments(payments).unwrap();
    assert_eq!(out, vec![payment(b"AAA-1", 0, 7), payment(FEE_TOKEN, 0, 50), payment(b"BBB-2", 0, 9)]);
    let total_out: u128 = out.iter().map(|p| p.amount).sum();
    assert_eq!(total_out + sc.accumulated_fees(), 7 + 150 + 9);
}

#[test]
fn only_the_first_fee_token_payment_pays() {
    let mut sc = ContractStorage::new();
    sc.set_fee_settings(&owner(), FEE_TOKEN.to_vec(), 100);
    let payments = vec![payment(FEE_TOKEN, 0, 100), payment(FEE_TOKEN, 0, 300)];
    let out = sc.process_fee_from_payments(payments).unwrap();
    assert_eq!(out, vec![payment(FEE_TOKEN, 0, 300)]);
    assert_eq!(sc.accumulated_fees(), 100);
}

#[test]
fn a_single_payment_pays_whatever_its_token() {
    let mut sc = ContractStorage::new();
    sc.set_fee_settings(&owner(), FEE_TOKEN.to_vec(), 100);
    let out = sc.process_fee_from_payments(vec![payment(b"OTHER-1", 0, 130)]).unwrap();
    assert_eq!(out, vec![payment(b"OTHER-1", 0, 30)]);
    assert_eq!(sc.accumulated_fees(), 100);
}

#[test]
fn refused_fee_processing_changes_nothing() {
    let mut sc = ContractStorage::new();
    sc.set_fee_settings(&owner(), FEE_TOKEN.to_vec(), 0);
    let r = sc.process_fee_from_payments(vec![payment(b"AAA-1", 0, 1), payment(b"BBB-1", 0, 2)]);
    assert_eq!(r, Err(FeeError::NoFeePayment));
    assert_eq!(sc.accumulated_fees(), 0);
    assert_eq!(FeeError::InvalidFeeAmount.message(), "Invalid fee amount provided");
}

#[test]
fn one_payment_is_lowered_in_place() {
    let mut sc = ContractStorage::new();
    sc.set_fee_settings(&owner(), FEE_TOKEN.to_vec(), 40);
    let mut p = payment(FEE_TOKEN, 0, 100);
    let out = sc._process_one_payment(&mut p).unwrap();
    assert_eq!(p.amount, 60);
    assert_eq!(out, vec![payment(FEE_TOKEN, 0, 60)]);
    let mut q = payment(FEE_TOKEN, 0, 10);
    assert_eq!(sc._process_one_payment(&mut q), Err(FeeError::NotEnoughAmount));
    assert_eq!(q.amount, 10);
    assert_eq!(sc.accumulated_fees(), 40);
}

#[test]
fn multiple_payments_remove_an_exact_fee() {
    let mut sc = ContractStorage::new();
    sc.set_fee_settings(&owner(), FEE_TOKEN.to_vec(), 40);
    let mut ps = vec![payment(b"AAA-1", 0, 5), payment(FEE_TOKEN, 0, 40), payment(b"BBB-1", 0, 6)];
    let out = sc._process_multiple_payments(&mut ps).unwrap();
    assert_eq!(out, vec![payment(b"AAA-1", 0, 5), payment(b"BBB-1", 0, 6)]);
    assert_eq!(ps, out);
}

// ---- multi-token payment ----

#[test]
fn zero_amount_is_not_accepted() {
    let mut sc = ContractStorage::new();
    let r = sc.add_payment_token(EgldOrEsdtTokenIdentifier::esdt(b"TKN-1".to_vec()), 0);
    assert_eq!(r, Err(PaymentError::AmountMustBePositive));
    assert_eq!(r.unwrap_err().message(), "Amount must be greater than 0");
}

#[test]
fn egld_payments_are_checked_by_value() {
    let mut sc = ContractStorage::new();
    sc.add_payment_token(EgldOrEsdtTokenIdentifier::egld(), 5).unwrap();
    assert_eq!(sc.require_valid_payment(5, &vec![]), Ok(()));
    assert_eq!(sc.require_valid_payment(6, &vec![]), Err(PaymentError::InvalidPaymentAmount));
}

#[test]
fn non_fungible_and_multiple_transfers_are_refused() {
    let mut sc = ContractStorage::new();
    sc.add_payment_token(EgldOrEsdtTokenIdentifier::esdt(b"NFT-1".to_vec()), 1).unwrap();
    let r = sc.require_valid_payment(0, &vec![payment(b"NFT-1", 3, 1)]);
    assert_eq!(r, Err(PaymentError::FungibleTokenExpected));
    assert_eq!(r.unwrap_err().message(), "fungible ESDT token expected");
    let r = sc.require_valid_payment(0, &vec![payment(b"NFT-1", 0, 1), payment(b"NFT-1", 0, 1)]);
    assert_eq!(r, Err(PaymentError::IncorrectNumberOfEsdtTransfers));
}

#[test]
fn call_value_reading() {
    let (token, amount) = egld_or_single_fungible_esdt(9, &vec![]).unwrap();
    assert!(token.is_egld());
    assert_eq!(amount, 9);
    let (token, amount) = egld_or_single_fungible_esdt(0, &vec![payment(b"TKN-1", 0, 4)]).unwrap();
    assert_eq!(token.encode(), b"TKN-1".to_vec());
    assert_eq!(amount, 4);
}

#[test]
fn each_of_several_payments_is_checked() {
    let mut sc = ContractStorage::new();
    sc.add_payment_token(EgldOrEsdtTokenIdentifier::esdt(b"TKN-1".to_vec()), 10).unwrap();
    let r = sc.require_valid_payments::<2>(&vec![payment(b"TKN-1", 0, 10), payment(b"TKN-2", 0, 10)]);
    assert_eq!(r, Err(PaymentError::InvalidPaymentToken));
    assert_eq!(r.unwrap_err().message(), "Invalid payment token");
    let r = sc.require_valid_payments::<2>(&vec![payment(b"TKN-1", 0, 11), payment(b"TKN-2", 0, 10)]);
    assert_eq!(r, Err(PaymentError::InvalidPaymentAmount));
}

#[test]
fn removed_token_is_refused() {
    let mut sc = ContractStorage::new();
    let t = EgldOrEsdtTokenIdentifier::esdt(b"TKN-1".to_vec());
    sc.add_payment_token(t.clone(), 10).unwrap();
    sc.remove_payment_token(t);
    assert_eq!(sc.require_valid_payment(0, &vec![payment(b"TKN-1", 0, 10)]), Err(PaymentError::PaymentTokenNotAccepted));
}

// ---- referrals ----

#[test]
fn claiming_twice_pays_once() {
    let mut sc = referral_setup();
    sc.set_collected_tag_fees(b"tag1".to_vec(), 55);
    assert_eq!(sc.get_collected_fee_amount(&owner()), 55);
    assert!(sc.claim_referral_fees(&owner()).is_ok());
    let r = sc.claim_referral_fees(&owner());
    assert_eq!(r, Err(ReferralError::NoFeesToClaim));
    assert_eq!(r.unwrap_err().message(), "No fees to claim");
}

#[test]
fn updating_twice_finds_no_second_upgrade() {
    let mut sc = referral_setup();
    sc.set_accumulated_volume(b"tag1".to_vec(), 5_000);
    assert_eq!(sc.update_tier(&owner()), Ok(b"gold".to_vec()));
    assert_eq!(sc.referral_tag_percent(&b"tag1".to_vec()), 2_000);
    assert_eq!(sc.update_tier(&owner()), Err(ReferralError::NoTierUpgradeFound));
}

#[test]
fn equal_shares_pick_the_first_tier() {
    let mut sc = ContractStorage::new();
    sc.add_tier_details(tiers(vec![(b"entry", 0, 100), (b"first", 10, 700), (b"second", 5, 700)])).unwrap();
    sc.register_referral_tag(&owner(), b"tag1".to_vec()).unwrap();
    sc.set_accumulated_volume(b"tag1".to_vec(), 50);
    assert_eq!(sc.update_tier(&owner()), Ok(b"first".to_vec()));
}

#[test]
fn a_batch_with_a_duplicate_adds_nothing() {
    let mut sc = ContractStorage::new();
    let r = sc.add_tier_details(tiers(vec![(b"a", 0, 1), (b"b", 1, 2), (b"a", 0, 1)]));
    assert_eq!(r, Err(ReferralError::TierAlreadyExists));
    assert!(sc.tier_details().is_empty());
}

#[test]
fn removing_a_tier_moves_the_last_into_its_place() {
    let mut sc = ContractStorage::new();
    sc.add_tier_details(tiers(vec![(b"a", 0, 1), (b"b", 1, 2), (b"c", 2, 3)])).unwrap();
    sc.remove_tier_details(&b"a".to_vec()).unwrap();
    let names: Vec<Vec<u8>> = sc.tier_details().into_iter().map(|t: TierDetails| t.name).collect();
    assert_eq!(names, vec![b"c".to_vec(), b"b".to_vec()]);
    let r = sc.remove_tier_details(&b"a".to_vec());
    assert_eq!(r, Err(ReferralError::TierNotFound));
    assert_eq!(r.unwrap_err().message(), "Tier not found");
}

#[test]
fn setting_a_referral_percentage() {
    let mut sc = referral_setup();
    let r = sc.set_referral_fee_percentage(b"tag1".to_vec(), 9_000);
    assert_eq!(r, Err(ReferralError::InvalidNewPercentage));
    assert_eq!(r.unwrap_err().message(), "Invalid new percentage given");
    let r = sc.set_referral_fee_percentage(b"nope".to_vec(), 10);
    assert_eq!(r, Err(ReferralError::TagNotFound));
    assert_eq!(r.unwrap_err().message(), "Tag not found");
    assert_eq!(sc.set_referral_fee_percentage(b"tag1".to_vec(), 8_999), Ok(()));
    assert_eq!(sc.referral_tag_percent(&b"tag1".to_vec()), 8_999);
}

#[test]
fn removing_a_tag_pays_out_and_clears() {
    let mut sc = referral_setup();
    sc.set_collected_tag_fees(b"tag1".to_vec(), 42);
    sc.set_accumulated_volume(b"tag1".to_vec(), 7);
    let payout = sc.remove_referral_tag(&owner());
    assert_eq!(payout, Ok(Some(Payout { to: owner(), token_identifier: b"RWD-8j5bp0".to_vec(), amount: 42 })));
    assert_eq!(sc.user_tag_mapping(&owner()), Vec::<u8>::new());
    assert_eq!(sc.referral_tag_percent(&b"tag1".to_vec()), 0);
    assert_eq!(sc.accumulated_volume(&b"tag1".to_vec()), 0);
    assert_eq!(sc.collected_tag_fees(&b"tag1".to_vec()), 0);
    let r = sc.remove_referral_tag(&owner());
    assert_eq!(r, Err(ReferralError::TagNotFound));
    assert_eq!(r.unwrap_err().message(), "Tag not found");
}

#[test]
fn removing_the_tag_of_a_user_without_one_is_refused() {
    let mut sc = referral_setup();
    sc.set_collected_tag_fees(Vec::new(), 9);
    assert_eq!(sc.remove_referral_tag(&USER.to_vec()), Err(ReferralError::TagNotFound));
    assert_eq!(sc.collected_tag_fees(&Vec::new()), 9);
    assert_eq!(sc.user_tag_mapping(&owner()), b"tag1".to_vec());
}

#[test]
fn removing_a_tag_without_fees_pays_nothing() {
    let mut sc = referral_setup();
    assert_eq!(sc.remove_referral_tag(&owner()), Ok(None));
    assert_eq!(sc.referral_tag_percent(&b"tag1".to_vec()), 0);
}

#[test]
fn referral_share_is_rounded_down() {
    assert_eq!(xmodules::referrals::referral_share(12_345, 777), 959);
    assert_eq!(xmodules::referrals::referral_share(9_999, 1), 0);
}

#[test]
fn module_operations_leave_other_modules_alone() {
    let mut sc = referral_setup();
    sc.add_payment_token(EgldOrEsdtTokenIdentifier::esdt(b"TKN-1".to_vec()), 10).unwrap();
    sc.set_fee_settings(&owner(), FEE_TOKEN.to_vec(), 3);
    sc.set_accumulated_fees(6);
    sc.withdraw_fees(&owner());
    sc.remove_payment_token(EgldOrEsdtTokenIdentifier::esdt(b"TKN-2".to_vec()));
    assert_eq!(sc.user_tag_mapping(&owner()), b"tag1".to_vec());
    assert_eq!(sc.referral_tag_percent(&b"tag1".to_vec()), 500);
    sc.remove_referral_tag(&owner()).unwrap();
    assert_eq!(sc.accepted_tokens(&EgldOrEsdtTokenIdentifier::esdt(b"TKN-1".to_vec())), 10);
    assert_eq!(sc.fee_token(), FEE_TOKEN.to_vec());
}

#[test]
fn referral_fee_split() {
    let mut sc = referral_setup();
    assert_eq!(sc.subtract_referral_fee_and_update_collected_fees(100_000, b"tag1".to_vec()), 95_000);
    assert_eq!(sc.collected_tag_fees(&b"tag1".to_vec()), 5_000);
    sc.set_referral_fee_percentage(b"tag1".to_vec(), 777).unwrap();
    assert_eq!(sc.subtract_referral_fee_and_update_collected_fees(12_345, b"tag1".to_vec()), 11_386);
    assert_eq!(sc.collected_tag_fees(&b"tag1".to_vec()), 5_959);
    assert_eq!(sc.subtract_referral_fee_and_update_collected_fees(12_345, b"other".to_vec()), 12_345);
}

#[test]
fn referral_fee_split_of_the_largest_fee() {
    let mut sc = referral_setup();
    sc.set_referral_fee_percentage(b"tag1".to_vec(), 8_999).unwrap();
    let rest = sc.subtract_referral_fee_and_update_collected_fees(u128::MAX, b"tag1".to_vec());
    assert_eq!(rest, 34062264928785940192683798203919997967);
    assert_eq!(sc.collected_tag_fees(&b"tag1".to_vec()), 306220101992152523270690809227848213488);
}

#[test]
fn an_entry_tier_with_no_share_leaves_the_tag_free() {
    let mut sc = ContractStorage::new();
    sc.add_tier_details(tiers(vec![(b"free", 0, 0)])).unwrap();
    sc.register_referral_tag(&owner(), b"tag1".to_vec()).unwrap();
    assert_eq!(sc.referral_tag_percent(&b"tag1".to_vec()), 0);
    assert_eq!(sc.register_referral_tag(&USER.to_vec(), b"tag1".to_vec()), Ok(()));
}

#[test]
fn registration_refusals() {
    let mut sc = referral_setup();
    let r = sc.register_referral_tag(&owner(), b"tag2".to_vec());
    assert_eq!(r, Err(ReferralError::UserAlreadyOwnsTag));
    let mut empty = ContractStorage::new();
    empty.add_tier_details(tiers(vec![(b"x", 5, 1)])).unwrap();
    let r = empty.register_referral_tag(&owner(), b"t".to_vec());
    assert_eq!(r, Err(ReferralError::NoTierWithMinVolumeZero));
    assert_eq!(r.unwrap_err().message(), "No tier with min volume 0");
    assert_eq!(ReferralError::TiersNotSet.message(), "Tiers not set");
    assert_eq!(ReferralError::NotATagOwner.message(), "Not a tag owner");
}

#[test]
fn a_share_at_the_bound_is_refused() {
    let mut sc = ContractStorage::new();
    let r = sc.add_tier_details(tiers(vec![(b"a", 0, 9_000)]));
    assert_eq!(r, Err(ReferralError::InvalidFeePercentage));
    assert_eq!(sc.add_tier_details(tiers(vec![(b"a", 0, 8_999)])), Ok(()));
}
