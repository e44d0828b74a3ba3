use xmodules::contract::ContractStorage;
use xmodules::payment::Payout;
use xmodules::referrals::{ReferralError, ReferralModule, TierDetailsArg};

const REWARDS_TOKEN_ID: &[u8] = b"RWD-8j5bp0";
const OWNER: &[u8] = b"contract-owner-address";

fn owner() -> Vec<u8> {
    OWNER.to_vec()
}

fn check<T: std::fmt::Debug>(result: Result<T, ReferralError>, expected_err: Option<&str>) {
    match (result, expected_err) {
        (Ok(_), None) => {}
        (Err(e), Some(msg)) => assert_eq!(e.message(), msg),
        (other, expected) => panic!("unexpected outcome {:?}, expected error {:?}", other, expected),
    }
}

fn add_tier_details(sc: &mut ContractStorage, tiers: Vec<(&[u8], u128, u64)>, expected_err: Option<&str>) {
    let args: Vec<TierDetailsArg> = tiers.into_iter().map(|(name, min_volume, fee)| (name.to_vec(), min_volume, fee)).collect();
    check(sc.add_tier_details(args), expected_err);
}

fn register_referral_tag(sc: &mut ContractStorage, tag: &[u8], expected_err: Option<&str>) {
    check(sc.register_referral_tag(&owner(), tag.to_vec()), expected_err);
}

fn standard_tiers(sc: &mut ContractStorage) {
    add_tier_details(sc, vec![(b"tier2", 10, 20), (b"tier3", 0, 30), (b"tier1", 20, 10)], None);
}

#[test]
fn test_add_tiers() {
    let mut sc = ContractStorage::new();
    add_tier_details(&mut sc, vec![(b"tier1", 100, 10), (b"tier2", 200, 20), (b"tier3", 300, 30)], None);
    assert_eq!(sc.tier_details().len(), 3);
}

#[test]
fn test_add_tiers_invalid_fee() {
    let mut sc = ContractStorage::new();
    add_tier_details(
        &mut sc,
        vec![(b"tier1", 100, 10), (b"tier2", 200, 20), (b"tier3", 300, 10_000)],
        Some("Invalid fee percentage"),
    );
    assert_eq!(sc.tier_details().len(), 0);
}

#[test]
fn test_add_tiers_already_exists() {
    let mut sc = ContractStorage::new();
    add_tier_details(&mut sc, vec![(b"tier1", 100, 10), (b"tier2", 200, 20), (b"tier3", 300, 30)], None);
    add_tier_details(&mut sc, vec![(b"tier1", 100, 10)], Some("Tier already exists"));
    assert_eq!(sc.tier_details().len(), 3);
}

#[test]
fn test_register_tag_tires_not_set() {
    let mut sc = ContractStorage::new();
    register_referral_tag(&mut sc, b"tag1", Some("Tiers not set"));
}

#[test]
fn test_register_tag() {
    let mut sc = ContractStorage::new();
    add_tier_details(&mut sc, vec![(b"tier1", 0, 10), (b"tier2", 10, 20), (b"tier3", 20, 30)], None);
    register_referral_tag(&mut sc, b"tag1", None);
    assert_eq!(sc.user_tag_mapping(&owner()), b"tag1".to_vec());
    assert_eq!(sc.referral_tag_percent(&b"tag1".to_vec()), 10);
}

#[test]
fn test_register_tag_incorrect_tiers_added() {
    let mut sc = ContractStorage::new();
    add_tier_details(&mut sc, vec![(b"tier1", 50, 10)], None);
    register_referral_tag(&mut sc, b"tag1", Some("No tier with min volume 0"));
    assert_eq!(sc.user_tag_mapping(&owner()), Vec::<u8>::new());
}

#[test]
fn test_register_tag_random_order_on_tiers() {
    let mut sc = ContractStorage::new();
    add_tier_details(&mut sc, vec![(b"tier2", 10, 20), (b"tier3", 0, 30), (b"tier1", 20, 10)], None);
    register_referral_tag(&mut sc, b"tag1", None);
    assert_eq!(sc.referral_tag_percent(&b"tag1".to_vec()), 30);
}

#[test]
fn test_register_tag_already_has_owner() {
    let mut sc = ContractStorage::new();
    standard_tiers(&mut sc);
    register_referral_tag(&mut sc, b"tag1", None);
    register_referral_tag(&mut sc, b"tag1", Some("Tag already registered"));
}

#[test]
fn test_register_tag_already_registered_by_another_user() {
    let mut sc = ContractStorage::new();
    standard_tiers(&mut sc);
    let user = b"another-user-address".to_vec();
    register_referral_tag(&mut sc, b"tag1", None);
    check(sc.register_referral_tag(&user, b"tag1".to_vec()), Some("Tag already registered"));
}

#[test]
fn test_register_tag_user_already_has_a_tag() {
    let mut sc = ContractStorage::new();
    standard_tiers(&mut sc);
    register_referral_tag(&mut sc, b"tag1", None);
    register_referral_tag(&mut sc, b"tag2", Some("User already owns a tag"));
}

#[test]
fn test_claim_referral_fee() {
    let mut sc = ContractStorage::new();
    let tag = b"tag1";
    standard_tiers(&mut sc);
    register_referral_tag(&mut sc, tag, None);

    sc.set_rewards_token(REWARDS_TOKEN_ID.to_vec());
    sc.set_collected_tag_fees(tag.to_vec(), 100);
    assert_eq!(sc.collected_tag_fees(&tag.to_vec()), 100);

    let payout = sc.claim_referral_fees(&owner());
    assert_eq!(payout, Ok(Payout { to: owner(), token_identifier: REWARDS_TOKEN_ID.to_vec(), amount: 100 }));
    assert_eq!(sc.collected_tag_fees(&tag.to_vec()), 0);
}

#[test]
fn test_claim_referral_fee_not_a_tag_owner() {
    let mut sc = ContractStorage::new();
    check(sc.claim_referral_fees(&owner()), Some("Not a tag owner"));
}

#[test]
fn test_update_tier() {
    let mut sc = ContractStorage::new();
    let tag = b"tag1";
    add_tier_details(&mut sc, vec![(b"tier3", 30, 2_000), (b"tier1", 0, 500), (b"tier2", 10, 1_000)], None);
    register_referral_tag(&mut sc, tag, None);

    sc.set_accumulated_volume(tag.to_vec(), 15);
    assert_eq!(sc.update_tier(&owner()), Ok(b"tier2".to_vec()));
    assert_eq!(sc.referral_tag_percent(&tag.to_vec()), 1_000);
}

#[test]
fn test_update_tier_no_upgrade() {
    let mut sc = ContractStorage::new();
    let tag = b"tag1";
    add_tier_details(&mut sc, vec![(b"tier3", 30, 2_000), (b"tier1", 0, 500), (b"tier2", 10, 1_000)], None);
    register_referral_tag(&mut sc, tag, None);
    sc.set_accumulated_volume(tag.to_vec(), 5);

    check(sc.update_tier(&owner()), Some("No tier upgrade found"));
    assert_eq!(sc.referral_tag_percent(&tag.to_vec()), 500);
}

#[test]
fn test_remove_tier_with_active_users() {
    let mut sc = ContractStorage::new();
    let tag = b"tag1";
    add_tier_details(&mut sc, vec![(b"tier3", 30, 2_000), (b"tier1", 0, 500), (b"tier2", 10, 1_000)], None);
    register_referral_tag(&mut sc, tag, None);
    sc.set_accumulated_volume(tag.to_vec(), 15);

    check(sc.update_tier(&owner()), None);
    assert_eq!(sc.referral_tag_percent(&tag.to_vec()), 1_000);

    assert_eq!(sc.remove_tier_details(&b"tier2".to_vec()), Ok(()));
    check(sc.update_tier(&owner()), Some("No tier upgrade found"));

    assert_eq!(sc.referral_tag_percent(&tag.to_vec()), 1_000);
}
