//! Referral tags: users register a tag, earn a share of the fees paid under
//! it, and move up through volume tiers that raise that share.

use vstd::prelude::*;

use crate::payment::{opt_payout_view, Payout, PayoutView};
use crate::storage::{bytes_eq, copy_bytes};

verus! {

/// The whole of a fee, in hundredths of a percent.
pub const MAX_PERCENTAGE: u64 = 10_000u64;

/// The bound that a tag's share of the fees must stay below.
pub const MAX_FEE_PERCENTAGE: u64 = 9_000u64;

/// A customary share for a new tag.
pub const DEFAULT_REFERRAL_PERCENTAGE: u64 = 500u64;

/// The abstract value of a [`TierDetails`].
pub struct TierView {
    pub name: Seq<u8>,
    pub min_volume: nat,
    pub fee_percent: u64,
}

/// A volume tier: tags whose accumulated volume reaches `min_volume` may
/// earn `fee_percent` of the fees.
#[derive(Debug, Clone, PartialEq, Eq)]
pub struct TierDetails {
    pub name: Vec<u8>,
    pub min_volume: u128,
    pub fee_percent: u64,
}

impl View for TierDetails {
    type V = TierView;

    open spec fn view(&self) -> TierView {
        TierView { name: self.name@, min_volume: self.min_volume as nat, fee_percent: self.fee_percent }
    }
}

impl TierDetails {
    /// A tier named `name`.
    pub fn new(name: Vec<u8>, min_volume: u128, fee_percent: u64) -> (r: Self)
        ensures
            r@ == (TierView { name: name@, min_volume: min_volume as nat, fee_percent }),
    {
        TierDetails { name, min_volume, fee_percent }
    }

    /// A copy of the tier.
    pub fn duplicate(&self) -> (r: Self)
        ensures
            r@ == self@,
    {
        TierDetails { name: copy_bytes(&self.name), min_volume: self.min_volume, fee_percent: self.fee_percent }
    }

    /// Whether two tiers are equal in every field.
    pub fn same_as(&self, other: &TierDetails) -> (r: bool)
        ensures
            r == (self@ == other@),
    {
        self.min_volume == other.min_volume && self.fee_percent == other.fee_percent && bytes_eq(
            &self.name,
            &other.name,
        )
    }
}

/// A tier as it is handed in: name, minimum volume and fee percentage.
pub type TierDetailsArg = (Vec<u8>, u128, u64);

/// The abstract value of a list of tiers.
pub open spec fn tiers_view(v: Seq<TierDetails>) -> Seq<TierView> {
    v.map_values(|t: TierDetails| t@)
}

/// The abstract value of a list of tiers as they are handed in.
pub open spec fn args_view(v: Seq<TierDetailsArg>) -> Seq<TierView> {
    v.map_values(|a: TierDetailsArg| TierView { name: a.0@, min_volume: a.1 as nat, fee_percent: a.2 })
}

/// Why a referral operation was refused.
#[derive(Debug, Clone, Copy, PartialEq, Eq, Structural)]
pub enum ReferralError {
    /// The tag to register already has a share of the fees.
    TagAlreadyRegistered,
    /// The caller already owns a tag.
    UserAlreadyOwnsTag,
    /// No tier is stored.
    TiersNotSet,
    /// No tier has a minimum volume of zero.
    NoTierWithMinVolumeZero,
    /// The caller owns no tag.
    NotATagOwner,
    /// The caller's tag has no fees collected.
    NoFeesToClaim,
    /// No tier that the tag's volume reaches has a higher share.
    NoTierUpgradeFound,
    /// A tier's share is not below the bound.
    InvalidFeePercentage,
    /// A tier is already stored.
    TierAlreadyExists,
    /// No tier has the given name.
    TierNotFound,
    /// The new share is not below the bound.
    InvalidNewPercentage,
    /// The tag has no share of the fees, or the user owns no tag.
    TagNotFound,
}

/// The text of the message with which the contract rejects a call for `e`.
pub open spec fn referral_error_message(e: ReferralError) -> Seq<char> {
    match e {
        ReferralError::TagAlreadyRegistered => "Tag already registered"@,
        ReferralError::UserAlreadyOwnsTag => "User already owns a tag"@,
        ReferralError::TiersNotSet => "Tiers not set"@,
        ReferralError::NoTierWithMinVolumeZero => "No tier with min volume 0"@,
        ReferralError::NotATagOwner => "Not a tag owner"@,
        ReferralError::NoFeesToClaim => "No fees to claim"@,
        ReferralError::NoTierUpgradeFound => "No tier upgrade found"@,
        ReferralError::InvalidFeePercentage => "Invalid fee percentage"@,
        ReferralError::TierAlreadyExists => "Tier already exists"@,
        ReferralError::TierNotFound => "Tier not found"@,
        ReferralError::InvalidNewPercentage => "Invalid new percentage given"@,
        ReferralError::TagNotFound => "Tag not found"@,
    }
}

impl ReferralError {
    /// The message with which the contract rejects the call.
    pub fn message(&self) -> (r: &'static str)
        ensures
            r@ == referral_error_message(*self),
    {
        match self {
            ReferralError::TagAlreadyRegistered => "Tag already registered",
            ReferralError::UserAlreadyOwnsTag => "User already owns a tag",
            ReferralError::TiersNotSet => "Tiers not set",
            ReferralError::NoTierWithMinVolumeZero => "No tier with min volume 0",
            ReferralError::NotATagOwner => "Not a tag owner",
            ReferralError::NoFeesToClaim => "No fees to claim",
            ReferralError::NoTierUpgradeFound => "No tier upgrade found",
            ReferralError::InvalidFeePercentage => "Invalid fee percentage",
            ReferralError::TierAlreadyExists => "Tier already exists",
            ReferralError::TierNotFound => "Tier not found",
            ReferralError::InvalidNewPercentage => "Invalid new percentage given",
            ReferralError::TagNotFound => "Tag not found",
        }
    }
}

/// The abstract state of a [`ReferralModule`]. A key missing from a map
/// reads as the empty value: the empty tag, or zero.
#[verifier::ext_equal]
pub struct ReferralView {
    /// The tag that each user owns.
    pub user_tag_mapping: Map<Seq<u8>, Seq<u8>>,
    /// The fees collected for each tag and not yet claimed.
    pub collected_tag_fees: Map<Seq<u8>, u128>,
    /// Each tag's share of the fees; a tag is registered while it is not zero.
    pub referral_tag_percent: Map<Seq<u8>, u64>,
    /// The tiers, in the order in which they are stored.
    pub tier_details: Seq<TierView>,
    /// The volume accumulated under each tag.
    pub accumulated_volume: Map<Seq<u8>, u128>,
    /// The token in which referral fees are paid out.
    pub rewards_token: Seq<u8>,
}

/// The tag that `user` owns; empty when none.
pub open spec fn tag_of(v: ReferralView, user: Seq<u8>) -> Seq<u8> {
    if v.user_tag_mapping.contains_key(user) {
        v.user_tag_mapping[user]
    } else {
        Seq::empty()
    }
}

/// The fees collected for `tag`.
pub open spec fn collected_of(v: ReferralView, tag: Seq<u8>) -> nat {
    if v.collected_tag_fees.contains_key(tag) {
        v.collected_tag_fees[tag] as nat
    } else {
        0
    }
}

/// The share of the fees of `tag`; zero when the tag is not registered.
pub open spec fn percent_of(v: ReferralView, tag: Seq<u8>) -> u64 {
    if v.referral_tag_percent.contains_key(tag) {
        v.referral_tag_percent[tag]
    } else {
        0
    }
}

/// The volume accumulated under `tag`.
pub open spec fn volume_of(v: ReferralView, tag: Seq<u8>) -> nat {
    if v.accumulated_volume.contains_key(tag) {
        v.accumulated_volume[tag] as nat
    } else {
        0
    }
}

/// What holds of every state the module reaches: each share of the fees,
/// of a tag or of a tier, stays below [`MAX_FEE_PERCENTAGE`], and no tier is
/// stored twice.
pub open spec fn inv(v: ReferralView) -> bool {
    &&& forall|t: Seq<u8>| #[trigger] v.referral_tag_percent.contains_key(t)
        ==> v.referral_tag_percent[t] < MAX_FEE_PERCENTAGE
    &&& forall|i: int| 0 <= i < v.tier_details.len() ==> (#[trigger] v.tier_details[i]).fee_percent < MAX_FEE_PERCENTAGE
    &&& v.tier_details.no_duplicates()
}

/// `i` is the first tier with a minimum volume of zero.
pub open spec fn is_entry_tier(tiers: Seq<TierView>, i: int) -> bool {
    &&& 0 <= i < tiers.len()
    &&& tiers[i].min_volume == 0
    &&& forall|j: int| 0 <= j < i ==> (#[trigger] tiers[j]).min_volume != 0
}

/// Some tier has a minimum volume of zero.
pub open spec fn has_entry_tier(tiers: Seq<TierView>) -> bool {
    exists|i: int| 0 <= i < tiers.len() && (#[trigger] tiers[i]).min_volume == 0
}

/// The first tier with a minimum volume of zero.
pub open spec fn entry_tier(tiers: Seq<TierView>) -> int {
    choose|i: int| is_entry_tier(tiers, i)
}

/// Registering `tag` for `caller`: the tag must be free, the caller must own
/// no tag, and a tier with a minimum volume of zero must exist; the tag then
/// belongs to the caller, starts with no volume and takes the share of the
/// first such tier.
pub open spec fn register_referral_tag_spec(v: ReferralView, caller: Seq<u8>, tag: Seq<u8>) -> Result<
    ReferralView,
    ReferralError,
> {
    if percent_of(v, tag) != 0 {
        Err(ReferralError::TagAlreadyRegistered)
    } else if tag_of(v, caller).len() != 0 {
        Err(ReferralError::UserAlreadyOwnsTag)
    } else if v.tier_details.len() == 0 {
        Err(ReferralError::TiersNotSet)
    } else if !has_entry_tier(v.tier_details) {
        Err(ReferralError::NoTierWithMinVolumeZero)
    } else {
        Ok(
            ReferralView {
                user_tag_mapping: v.user_tag_mapping.insert(caller, tag),
                accumulated_volume: v.accumulated_volume.remove(tag),
                referral_tag_percent: v.referral_tag_percent.insert(
                    tag,
                    v.tier_details[entry_tier(v.tier_details)].fee_percent,
                ),
                ..v
            },
        )
    }
}

/// Claiming the fees of the caller's tag: the caller must own a tag with
/// fees collected; they are all paid out to the caller, in the rewards token,
/// and the tag's collected fees drop to zero.
pub open spec fn claim_referral_fees_spec(v: ReferralView, caller: Seq<u8>) -> Result<
    (ReferralView, PayoutView),
    ReferralError,
> {
    let tag = tag_of(v, caller);
    if tag.len() == 0 {
        Err(ReferralError::NotATagOwner)
    } else if collected_of(v, tag) == 0 {
        Err(ReferralError::NoFeesToClaim)
    } else {
        Ok(
            (
                ReferralView { collected_tag_fees: v.collected_tag_fees.remove(tag), ..v },
                PayoutView { to: caller, token_identifier: v.rewards_token, amount: collected_of(v, tag) },
            ),
        )
    }
}


/// `i` is the tier that an update moves a tag to: among the tiers that the
/// volume reaches, the first one with the highest share, when that share
/// exceeds the current one.
pub open spec fn is_upgrade(tiers: Seq<TierView>, volume: nat, current: u64, i: int) -> bool {
    &&& 0 <= i < tiers.len()
    &&& volume >= tiers[i].min_volume
    &&& tiers[i].fee_percent > current
    &&& forall|j: int|
        0 <= j < tiers.len() && volume >= (#[trigger] tiers[j]).min_volume ==> tiers[j].fee_percent
            <= tiers[i].fee_percent
    &&& forall|j: int|
        0 <= j < i && volume >= (#[trigger] tiers[j]).min_volume ==> tiers[j].fee_percent < tiers[i].fee_percent
}

/// Some tier that the volume reaches has a higher share than the current one.
pub open spec fn has_upgrade(tiers: Seq<TierView>, volume: nat, current: u64) -> bool {
    exists|j: int| 0 <= j < tiers.len() && volume >= (#[trigger] tiers[j]).min_volume && tiers[j].fee_percent > current
}

/// The tier that an update moves a tag to.
pub open spec fn upgrade_index(tiers: Seq<TierView>, volume: nat, current: u64) -> int {
    choose|i: int| is_upgrade(tiers, volume, current, i)
}

/// Updating the tier of the caller's tag: the caller must own a tag, and
/// some tier that its volume reaches must offer a higher share; the tag takes
/// the share of [`upgrade_index`], whose name is returned.
pub open spec fn update_tier_spec(v: ReferralView, caller: Seq<u8>) -> Result<(ReferralView, Seq<u8>), ReferralError> {
    let tag = tag_of(v, caller);
    if tag.len() == 0 {
        Err(ReferralError::NotATagOwner)
    } else if !has_upgrade(v.tier_details, volume_of(v, tag), percent_of(v, tag)) {
        Err(ReferralError::NoTierUpgradeFound)
    } else {
        let i = upgrade_index(v.tier_details, volume_of(v, tag), percent_of(v, tag));
        Ok(
            (
                ReferralView {
                    referral_tag_percent: v.referral_tag_percent.insert(tag, v.tier_details[i].fee_percent),
                    ..v
                },
                v.tier_details[i].name,
            ),
        )
    }
}

/// What is wrong with adding tier `t` to `existing`, if anything: its share
/// must be below [`MAX_FEE_PERCENTAGE`] and it must not be stored yet.
pub open spec fn tier_fault(existing: Seq<TierView>, t: TierView) -> Option<ReferralError> {
    if t.fee_percent >= MAX_FEE_PERCENTAGE {
        Some(ReferralError::InvalidFeePercentage)
    } else if existing.contains(t) {
        Some(ReferralError::TierAlreadyExists)
    } else {
        None
    }
}

/// The fault of the first of the first `n` new tiers that cannot be added,
/// each added in turn after those before it.
pub open spec fn first_tier_fault(existing: Seq<TierView>, new: Seq<TierView>, n: nat) -> Option<ReferralError>
    decreases n,
{
    if n == 0 {
        None
    } else {
        match first_tier_fault(existing, new, (n - 1) as nat) {
            Some(e) => Some(e),
            None => tier_fault(existing + new.take(n - 1), new[n - 1]),
        }
    }
}

/// Adding tiers, in order, at the end of the stored ones: all are added, or
/// none when one of them has too high a share or is already there.
pub open spec fn add_tier_details_spec(v: ReferralView, new: Seq<TierView>) -> Result<ReferralView, ReferralError> {
    match first_tier_fault(v.tier_details, new, new.len()) {
        Some(e) => Err(e),
        None => Ok(ReferralView { tier_details: v.tier_details + new, ..v }),
    }
}

/// `i` is the first tier named `name`.
pub open spec fn is_named(tiers: Seq<TierView>, name: Seq<u8>, i: int) -> bool {
    &&& 0 <= i < tiers.len()
    &&& tiers[i].name == name
    &&& forall|j: int| 0 <= j < i ==> (#[trigger] tiers[j]).name != name
}

/// Some tier is named `name`.
pub open spec fn has_named(tiers: Seq<TierView>, name: Seq<u8>) -> bool {
    exists|i: int| 0 <= i < tiers.len() && (#[trigger] tiers[i]).name == name
}

/// The first tier named `name`.
pub open spec fn named_index(tiers: Seq<TierView>, name: Seq<u8>) -> int {
    choose|i: int| is_named(tiers, name, i)
}

/// The tiers with the one at `i` removed and the last moved into its place.
pub open spec fn swap_removed(tiers: Seq<TierView>, i: int) -> Seq<TierView> {
    tiers.update(i, tiers.last()).drop_last()
}

/// Removing the first tier named `name`; the last tier takes its place.
pub open spec fn remove_tier_details_spec(v: ReferralView, name: Seq<u8>) -> Result<ReferralView, ReferralError> {
    if !has_named(v.tier_details, name) {
        Err(ReferralError::TierNotFound)
    } else {
        Ok(ReferralView { tier_details: swap_removed(v.tier_details, named_index(v.tier_details, name)), ..v })
    }
}

/// Setting the share of a registered tag to a value below
/// [`MAX_FEE_PERCENTAGE`].
pub open spec fn set_referral_fee_percentage_spec(v: ReferralView, tag: Seq<u8>, new_percentage: u64) -> Result<
    ReferralView,
    ReferralError,
> {
    if new_percentage >= MAX_FEE_PERCENTAGE {
        Err(ReferralError::InvalidNewPercentage)
    } else if percent_of(v, tag) == 0 {
        Err(ReferralError::TagNotFound)
    } else {
        Ok(ReferralView { referral_tag_percent: v.referral_tag_percent.insert(tag, new_percentage), ..v })
    }
}

/// Removing the tag of `user`: the user must own a tag; its volume, share
/// and collected fees are erased and the user owns no tag any more; fees
/// that were collected are paid out to the user in the rewards token.
pub open spec fn remove_referral_tag_spec(v: ReferralView, user: Seq<u8>) -> Result<
    (ReferralView, Option<PayoutView>),
    ReferralError,
> {
    let tag = tag_of(v, user);
    let amount = collected_of(v, tag);
    if tag.len() == 0 {
        Err(ReferralError::TagNotFound)
    } else {
        Ok(
            (
                ReferralView {
                    user_tag_mapping: v.user_tag_mapping.remove(user),
                    collected_tag_fees: v.collected_tag_fees.remove(tag),
                    referral_tag_percent: v.referral_tag_percent.remove(tag),
                    accumulated_volume: v.accumulated_volume.remove(tag),
                    ..v
                },
                if amount > 0 {
                    Some(PayoutView { to: user, token_identifier: v.rewards_token, amount })
                } else {
                    None
                },
            ),
        )
    }
}

/// The referral share of a fee under `tag`: `fee * share / MAX_PERCENTAGE`,
/// rounded down.
pub open spec fn referral_amount(fee: nat, percent: u64) -> nat {
    ((fee * (percent as nat)) / (MAX_PERCENTAGE as nat)) as nat
}

/// Taking the referral share out of a fee paid under `tag`: with no share the
/// fee passes whole; otherwise the share is added to the tag's collected
/// fees and the rest of the fee is returned.
pub open spec fn subtract_referral_fee_spec(v: ReferralView, fee: nat, tag: Seq<u8>) -> (ReferralView, nat) {
    let p = percent_of(v, tag);
    if p == 0 {
        (v, fee)
    } else {
        let r = referral_amount(fee, p);
        (
            ReferralView {
                collected_tag_fees: v.collected_tag_fees.insert(tag, (collected_of(v, tag) + r) as u128),
                ..v
            },
            (fee - r) as nat,
        )
    }
}

proof fn lemma_upgrade_unique(tiers: Seq<TierView>, volume: nat, current: u64, i: int)
    requires
        is_upgrade(tiers, volume, current, i),
    ensures
        has_upgrade(tiers, volume, current),
        upgrade_index(tiers, volume, current) == i,
{
    assert(volume >= tiers[i].min_volume);
    let k = upgrade_index(tiers, volume, current);
    assert(is_upgrade(tiers, volume, current, k));
    if k < i {
        assert(volume >= tiers[k].min_volume);
    } else if k > i {
        assert(volume >= tiers[i].min_volume);
        assert(volume >= tiers[k].min_volume);
    }
}

proof fn lemma_named_unique(tiers: Seq<TierView>, name: Seq<u8>, i: int)
    requires
        is_named(tiers, name, i),
    ensures
        has_named(tiers, name),
        named_index(tiers, name) == i,
{
    assert(tiers[i].name == name);
    let k = named_index(tiers, name);
    assert(is_named(tiers, name, k));
    if k < i {
        assert(tiers[k].name != name);
    } else if k > i {
        assert(tiers[i].name != name);
    }
}

proof fn lemma_tier_fault_persists(existing: Seq<TierView>, new: Seq<TierView>, k: nat, n: nat)
    requires
        k <= n,
        first_tier_fault(existing, new, k) is Some,
    ensures
        first_tier_fault(existing, new, n) == first_tier_fault(existing, new, k),
    decreases n,
{
    if k < n {
        lemma_tier_fault_persists(existing, new, k, (n - 1) as nat);
    }
}

/// The referral share of a fee, computed from the fee's quotient and
/// remainder by `MAX_PERCENTAGE` so that no product exceeds the share or
/// `10_000 * u64::MAX`.
proof fn lemma_referral_amount_split(fee: nat, p: nat)
    requires
        p <= u64::MAX,
    ensures
        (fee * p) / 10_000 == (fee / 10_000) * p + ((fee % 10_000) * p) / 10_000,
        (fee / 10_000) * p <= (fee * p) / 10_000,
        (fee % 10_000) * p <= 9_999 * (u64::MAX as nat),
        p <= 10_000 ==> (fee * p) / 10_000 <= fee,
{
    let q = fee / 10_000;
    let r = fee % 10_000;
    assert(fee == q * 10_000 + r && r < 10_000) by (nonlinear_arith)
        requires
            q == fee / 10_000,
            r == fee % 10_000,
    ;
    assert(fee * p == (q * p) * 10_000 + r * p) by (nonlinear_arith)
        requires
            fee == q * 10_000 + r,
    ;
    assert(((q * p) * 10_000 + r * p) / 10_000 == q * p + (r * p) / 10_000) by (nonlinear_arith)
        requires
            r * p >= 0,
            q * p >= 0,
    ;
    assert(r * p <= 9_999 * (u64::MAX as nat)) by (nonlinear_arith)
        requires
            r < 10_000,
            p <= u64::MAX,
    ;
    assert(p <= 10_000 ==> (fee * p) / 10_000 <= fee) by (nonlinear_arith);
}

/// The referral share of a fee: `fee_amount * percent / MAX_PERCENTAGE`,
/// rounded down, computed without forming a product larger than the share.
pub fn referral_share(fee_amount: u128, percent: u64) -> (r: u128)
    requires
        referral_amount(fee_amount as nat, percent) <= fee_amount,
    ensures
        r == referral_amount(fee_amount as nat, percent),
{
    proof {
        lemma_referral_amount_split(fee_amount as nat, percent as nat);
    }
    let max_percentage = MAX_PERCENTAGE as u128;
    let whole = fee_amount / max_percentage;
    let part = fee_amount % max_percentage;
    whole * (percent as u128) + part * (percent as u128) / max_percentage
}

/// Copies a list of tiers.
pub fn duplicate_tiers(v: &Vec<TierDetails>) -> (r: Vec<TierDetails>)
    ensures
        tiers_view(r@) == tiers_view(v@),
{
    let mut r: Vec<TierDetails> = Vec::new();
    let mut i: usize = 0;
    while i < v.len()
        invariant
            i <= v@.len(),
            r@.len() == i,
            forall|j: int| 0 <= j < i ==> (#[trigger] r@[j])@ == v@[j]@,
        decreases v@.len() - i,
    {
        r.push(v[i].duplicate());
        i += 1;
    }
    assert(tiers_view(r@) =~= tiers_view(v@));
    r
}

/// Whether `t` is among the tiers.
pub fn tiers_contains(v: &Vec<TierDetails>, t: &TierDetails) -> (r: bool)
    ensures
        r == tiers_view(v@).contains(t@),
{
    let ghost s = tiers_view(v@);
    let mut i: usize = 0;
    while i < v.len()
        invariant
            i <= v@.len(),
            s == tiers_view(v@),
            s.len() == v@.len(),
            forall|j: int| 0 <= j < i ==> (#[trigger] s[j]) != t@,
        decreases v@.len() - i,
    {
        proof {
            assert(s[i as int] == v@[i as int]@);
        }
        if v[i].same_as(t) {
            proof {
                assert(s.contains(t@));
            }
            return true;
        }
        i += 1;
    }
    false
}

proof fn lemma_entry_tier_unique(tiers: Seq<TierView>, i: int)
    requires
        is_entry_tier(tiers, i),
    ensures
        has_entry_tier(tiers),
        entry_tier(tiers) == i,
{
    assert(tiers[i].min_volume == 0);
    let k = entry_tier(tiers);
    assert(is_entry_tier(tiers, k));
    if k < i {
        assert(tiers[k].min_volume != 0);
    } else if k > i {
        assert(tiers[i].min_volume != 0);
    }
}

/// Every first-fault-free batch of tiers can be added one by one: none of
/// them is already there when its turn comes.
proof fn lemma_no_tier_fault(existing: Seq<TierView>, new: Seq<TierView>, n: nat, k: int)
    requires
        first_tier_fault(existing, new, n) is None,
        0 <= k < n,
    ensures
        tier_fault(existing + new.take(k), new[k]) is None,
    decreases n,
{
    if k < n - 1 {
        lemma_no_tier_fault(existing, new, (n - 1) as nat, k);
    }
}

/// Referral tags: users register a tag, earn a share of the fees paid under
/// it and move up through volume tiers. The implementor provides the storage
/// (the getters and setters); the module provides the operations on it.
pub trait ReferralModule: Sized {
    /// The storage with the referral records left out: the referral
    /// operations keep it as it was.
    spec fn outside_referrals(&self) -> Self;

    /// The referral records held in storage.
    spec fn referral_state(&self) -> ReferralView;

    /// The storage's own consistency.
    spec fn referral_storage_ok(&self) -> bool;

    /// The tag that `user` owns; empty when none.
    fn user_tag_mapping(&self, user: &Vec<u8>) -> (r: Vec<u8>)
        requires
            self.referral_storage_ok(),
        ensures
            r@ == tag_of(self.referral_state(), user@),
    ;

    /// Stores the tag that `user` owns.
    fn set_user_tag_mapping(&mut self, user: Vec<u8>, tag: Vec<u8>)
        requires
            old(self).referral_storage_ok(),
        ensures
            final(self).outside_referrals() == old(self).outside_referrals(),
            final(self).referral_storage_ok(),
            final(self).referral_state() == (ReferralView {
                user_tag_mapping: old(self).referral_state().user_tag_mapping.insert(user@, tag@),
                ..old(self).referral_state()
            }),
    ;

    /// Clears the tag that `user` owns.
    fn clear_user_tag_mapping(&mut self, user: &Vec<u8>)
        requires
            old(self).referral_storage_ok(),
        ensures
            final(self).outside_referrals() == old(self).outside_referrals(),
            final(self).referral_storage_ok(),
            final(self).referral_state() == (ReferralView {
                user_tag_mapping: old(self).referral_state().user_tag_mapping.remove(user@),
                ..old(self).referral_state()
            }),
    ;

    /// The fees collected for `tag` and not yet claimed.
    fn collected_tag_fees(&self, tag: &Vec<u8>) -> (r: u128)
        requires
            self.referral_storage_ok(),
        ensures
            r == collected_of(self.referral_state(), tag@),
    ;

    /// Stores the fees collected for `tag`.
    fn set_collected_tag_fees(&mut self, tag: Vec<u8>, amount: u128)
        requires
            old(self).referral_storage_ok(),
        ensures
            final(self).outside_referrals() == old(self).outside_referrals(),
            final(self).referral_storage_ok(),
            final(self).referral_state() == (ReferralView {
                collected_tag_fees: old(self).referral_state().collected_tag_fees.insert(tag@, amount),
                ..old(self).referral_state()
            }),
    ;

    /// Clears the fees collected for `tag`.
    fn clear_collected_tag_fees(&mut self, tag: &Vec<u8>)
        requires
            old(self).referral_storage_ok(),
        ensures
            final(self).outside_referrals() == old(self).outside_referrals(),
            final(self).referral_storage_ok(),
            final(self).referral_state() == (ReferralView {
                collected_tag_fees: old(self).referral_state().collected_tag_fees.remove(tag@),
                ..old(self).referral_state()
            }),
    ;

    /// The share of the fees of `tag`; zero when it is not registered.
    fn referral_tag_percent(&self, tag: &Vec<u8>) -> (r: u64)
        requires
            self.referral_storage_ok(),
        ensures
            r == percent_of(self.referral_state(), tag@),
    ;

    /// Stores the share of the fees of `tag`.
    fn set_referral_tag_percent(&mut self, tag: Vec<u8>, percent: u64)
        requires
            old(self).referral_storage_ok(),
        ensures
            final(self).outside_referrals() == old(self).outside_referrals(),
            final(self).referral_storage_ok(),
            final(self).referral_state() == (ReferralView {
                referral_tag_percent: old(self).referral_state().referral_tag_percent.insert(tag@, percent),
                ..old(self).referral_state()
            }),
    ;

    /// Clears the share of the fees of `tag`.
    fn clear_referral_tag_percent(&mut self, tag: &Vec<u8>)
        requires
            old(self).referral_storage_ok(),
        ensures
            final(self).outside_referrals() == old(self).outside_referrals(),
            final(self).referral_storage_ok(),
            final(self).referral_state() == (ReferralView {
                referral_tag_percent: old(self).referral_state().referral_tag_percent.remove(tag@),
                ..old(self).referral_state()
            }),
    ;

    /// The stored tiers, in their order.
    fn tier_details(&self) -> (r: Vec<TierDetails>)
        requires
            self.referral_storage_ok(),
        ensures
            tiers_view(r@) == self.referral_state().tier_details,
    ;

    /// Adds `tier` at the end of the stored tiers unless it is already
    /// there; returns whether it was added.
    fn tier_details_insert(&mut self, tier: TierDetails) -> (r: bool)
        requires
            old(self).referral_storage_ok(),
        ensures
            final(self).outside_referrals() == old(self).outside_referrals(),
            final(self).referral_storage_ok(),
            r == !old(self).referral_state().tier_details.contains(tier@),
            final(self).referral_state() == (ReferralView {
                tier_details: if r {
                    old(self).referral_state().tier_details.push(tier@)
                } else {
                    old(self).referral_state().tier_details
                },
                ..old(self).referral_state()
            }),
    ;

    /// Removes `tier`, moving the last tier into its place; returns whether
    /// it was there.
    fn tier_details_swap_remove(&mut self, tier: &TierDetails) -> (r: bool)
        requires
            old(self).referral_storage_ok(),
        ensures
            final(self).outside_referrals() == old(self).outside_referrals(),
            final(self).referral_storage_ok(),
            r == old(self).referral_state().tier_details.contains(tier@),
            final(self).referral_state() == (ReferralView {
                tier_details: if r {
                    swap_removed(
                        old(self).referral_state().tier_details,
                        old(self).referral_state().tier_details.index_of(tier@),
                    )
                } else {
                    old(self).referral_state().tier_details
                },
                ..old(self).referral_state()
            }),
    ;

    /// The stored tiers form a set: none occurs twice.
    proof fn lemma_tiers_distinct(&self)
        requires
            self.referral_storage_ok(),
        ensures
            self.referral_state().tier_details.no_duplicates(),
    ;

    /// The volume accumulated under `tag`.
    fn accumulated_volume(&self, tag: &Vec<u8>) -> (r: u128)
        requires
            self.referral_storage_ok(),
        ensures
            r == volume_of(self.referral_state(), tag@),
    ;

    /// Stores the volume accumulated under `tag`.
    fn set_accumulated_volume(&mut self, tag: Vec<u8>, volume: u128)
        requires
            old(self).referral_storage_ok(),
        ensures
            final(self).outside_referrals() == old(self).outside_referrals(),
            final(self).referral_storage_ok(),
            final(self).referral_state() == (ReferralView {
                accumulated_volume: old(self).referral_state().accumulated_volume.insert(tag@, volume),
                ..old(self).referral_state()
            }),
    ;

    /// Clears the volume accumulated under `tag`.
    fn clear_accumulated_volume(&mut self, tag: &Vec<u8>)
        requires
            old(self).referral_storage_ok(),
        ensures
            final(self).outside_referrals() == old(self).outside_referrals(),
            final(self).referral_storage_ok(),
            final(self).referral_state() == (ReferralView {
                accumulated_volume: old(self).referral_state().accumulated_volume.remove(tag@),
                ..old(self).referral_state()
            }),
    ;

    /// The token in which referral fees are paid out.
    fn rewards_token(&self) -> (r: Vec<u8>)
        requires
            self.referral_storage_ok(),
        ensures
            r@ == self.referral_state().rewards_token,
    ;

    /// Stores the token in which referral fees are paid out.
    fn set_rewards_token(&mut self, token: Vec<u8>)
        requires
            old(self).referral_storage_ok(),
        ensures
            final(self).outside_referrals() == old(self).outside_referrals(),
            final(self).referral_storage_ok(),
            final(self).referral_state() == (ReferralView { rewards_token: token@, ..old(self).referral_state() }),
    ;

    /// Registers `tag` for `caller`. The tag must be free, the caller must
    /// own no tag, and some tier must have a minimum volume of zero; the
    /// first such tier gives the tag its share of the fees.
    fn register_referral_tag(&mut self, caller: &Vec<u8>, tag: Vec<u8>) -> (r: Result<(), ReferralError>)
        requires
            old(self).referral_storage_ok(),
        ensures
            final(self).outside_referrals() == old(self).outside_referrals(),
            final(self).referral_storage_ok(),
            inv(old(self).referral_state()) ==> inv(final(self).referral_state()),
            match r {
                Ok(()) => register_referral_tag_spec(old(self).referral_state(), caller@, tag@) == Ok::<
                    ReferralView,
                    ReferralError,
                >(final(self).referral_state()),
                Err(e) => register_referral_tag_spec(old(self).referral_state(), caller@, tag@) == Err::<
                    ReferralView,
                    ReferralError,
                >(e) && final(self).referral_state() == old(self).referral_state(),
            },
    {
        if self.referral_tag_percent(&tag) != 0 {
            return Err(ReferralError::TagAlreadyRegistered);
        }
        if self.user_tag_mapping(caller).len() != 0 {
            return Err(ReferralError::UserAlreadyOwnsTag);
        }
        let tier_list = self.tier_details();
        if tier_list.len() == 0 {
            return Err(ReferralError::TiersNotSet);
        }
        let ghost tiers = tiers_view(tier_list@);
        let ghost v = self.referral_state();
        assert(v == old(self).referral_state());
        let mut i: usize = 0;
        while i < tier_list.len()
            invariant
                i <= tier_list@.len(),
                tiers == tiers_view(tier_list@),
                tiers == v.tier_details,
                v == old(self).referral_state(),
                self.referral_storage_ok(),
                self.outside_referrals() == old(self).outside_referrals(),
                self.referral_state() == v,
                percent_of(v, tag@) == 0,
                tag_of(v, caller@).len() == 0,
                tiers.len() > 0,
                forall|j: int| 0 <= j < i ==> (#[trigger] tiers[j]).min_volume != 0,
            decreases tier_list@.len() - i,
        {
            proof {
                assert(tiers[i as int] == tier_list@[i as int]@);
            }
            if tier_list[i].min_volume == 0 {
                proof {
                    assert(is_entry_tier(tiers, i as int));
                    lemma_entry_tier_unique(tiers, i as int);
                }
                let fee_percent = tier_list[i].fee_percent;
                self.set_user_tag_mapping(copy_bytes(caller), copy_bytes(&tag));
                self.clear_accumulated_volume(&tag);
                self.set_referral_tag_percent(tag, fee_percent);
                proof {
                    assert(self.referral_state() =~= register_referral_tag_spec(v, caller@, tag@).unwrap());
                }
                return Ok(());
            }
            i += 1;
        }
        proof {
            assert(!has_entry_tier(tiers));
        }
        Err(ReferralError::NoTierWithMinVolumeZero)
    }

    /// Pays out to `caller` all fees collected for the tag it owns, in the
    /// rewards token, and resets them to zero.
    fn claim_referral_fees(&mut self, caller: &Vec<u8>) -> (r: Result<Payout, ReferralError>)
        requires
            old(self).referral_storage_ok(),
        ensures
            final(self).outside_referrals() == old(self).outside_referrals(),
            final(self).referral_storage_ok(),
            inv(old(self).referral_state()) ==> inv(final(self).referral_state()),
            match r {
                Ok(p) => claim_referral_fees_spec(old(self).referral_state(), caller@) == Ok::<
                    (ReferralView, PayoutView),
                    ReferralError,
                >((final(self).referral_state(), p@)),
                Err(e) => claim_referral_fees_spec(old(self).referral_state(), caller@) == Err::<
                    (ReferralView, PayoutView),
                    ReferralError,
                >(e) && final(self).referral_state() == old(self).referral_state(),
            },
    {
        let user_tag = self.user_tag_mapping(caller);
        if user_tag.len() == 0 {
            return Err(ReferralError::NotATagOwner);
        }
        let amount = self.collected_tag_fees(&user_tag);
        if amount == 0 {
            return Err(ReferralError::NoFeesToClaim);
        }
        let payout = Payout { to: copy_bytes(caller), token_identifier: self.rewards_token(), amount };
        let ghost v = self.referral_state();
        self.clear_collected_tag_fees(&user_tag);
        proof {
            assert(self.referral_state() =~= claim_referral_fees_spec(v, caller@).unwrap().0);
        }
        Ok(payout)
    }

    /// Moves the caller's tag to the best tier that its volume reaches: the
    /// first tier with the highest share, when that share exceeds the
    /// current one; returns that tier's name.
    fn update_tier(&mut self, caller: &Vec<u8>) -> (r: Result<Vec<u8>, ReferralError>)
        requires
            old(self).referral_storage_ok(),
        ensures
            final(self).outside_referrals() == old(self).outside_referrals(),
            final(self).referral_storage_ok(),
            inv(old(self).referral_state()) ==> inv(final(self).referral_state()),
            match r {
                Ok(name) => update_tier_spec(old(self).referral_state(), caller@) == Ok::<
                    (ReferralView, Seq<u8>),
                    ReferralError,
                >((final(self).referral_state(), name@)),
                Err(e) => update_tier_spec(old(self).referral_state(), caller@) == Err::<
                    (ReferralView, Seq<u8>),
                    ReferralError,
                >(e) && final(self).referral_state() == old(self).referral_state(),
            },
    {
        let user_tag = self.user_tag_mapping(caller);
        if user_tag.len() == 0 {
            return Err(ReferralError::NotATagOwner);
        }
        let user_volume = self.accumulated_volume(&user_tag);
        let current = self.referral_tag_percent(&user_tag);
        let tier_list = self.tier_details();
        let ghost tiers = tiers_view(tier_list@);
        let ghost volume = user_volume as nat;
        let mut fee_percent = current;
        let mut best: usize = 0;
        let mut found = false;
        let mut i: usize = 0;
        while i < tier_list.len()
            invariant
                i <= tier_list@.len(),
                tiers == tiers_view(tier_list@),
                tiers.len() == tier_list@.len(),
                current <= fee_percent,
                volume == user_volume as nat,
                forall|j: int|
                    0 <= j < i && volume >= (#[trigger] tiers[j]).min_volume ==> tiers[j].fee_percent <= fee_percent,
                found ==> {
                    &&& best < i
                    &&& volume >= tiers[best as int].min_volume
                    &&& tiers[best as int].fee_percent == fee_percent
                    &&& fee_percent > current
                    &&& forall|j: int|
                        0 <= j < best && volume >= (#[trigger] tiers[j]).min_volume ==> tiers[j].fee_percent
                            < fee_percent
                },
                !found ==> fee_percent == current,
            decreases tier_list@.len() - i,
        {
            proof {
                assert(tiers[i as int] == tier_list@[i as int]@);
            }
            let tier = &tier_list[i];
            if user_volume >= tier.min_volume && tier.fee_percent > fee_percent {
                fee_percent = tier.fee_percent;
                best = i;
                found = true;
            }
            i += 1;
        }
        if !found {
            proof {
                assert(!has_upgrade(tiers, volume, current));
            }
            return Err(ReferralError::NoTierUpgradeFound);
        }
        proof {
            assert(is_upgrade(tiers, volume, current, best as int));
            lemma_upgrade_unique(tiers, volume, current, best as int);
            assert(tiers[best as int] == tier_list@[best as int]@);
        }
        let tier_name = copy_bytes(&tier_list[best].name);
        let ghost v = self.referral_state();
        self.set_referral_tag_percent(user_tag, fee_percent);
        proof {
            assert(self.referral_state() =~= update_tier_spec(v, caller@).unwrap().0);
        }
        Ok(tier_name)
    }

    /// Adds the tiers, in order, at the end of the stored ones. Every share
    /// must be below [`MAX_FEE_PERCENTAGE`] and no tier may be stored twice;
    /// when one fails, none is added.
    fn add_tier_details(&mut self, tiers: Vec<TierDetailsArg>) -> (r: Result<(), ReferralError>)
        requires
            old(self).referral_storage_ok(),
        ensures
            final(self).outside_referrals() == old(self).outside_referrals(),
            final(self).referral_storage_ok(),
            inv(old(self).referral_state()) ==> inv(final(self).referral_state()),
            match r {
                Ok(()) => add_tier_details_spec(old(self).referral_state(), args_view(tiers@)) == Ok::<
                    ReferralView,
                    ReferralError,
                >(final(self).referral_state()),
                Err(e) => add_tier_details_spec(old(self).referral_state(), args_view(tiers@)) == Err::<
                    ReferralView,
                    ReferralError,
                >(e) && final(self).referral_state() == old(self).referral_state(),
            },
    {
        proof {
            self.lemma_tiers_distinct();
        }
        let ghost v = self.referral_state();
        let ghost existing = v.tier_details;
        let ghost new = args_view(tiers@);
        let mut stored = self.tier_details();
        let mut k: usize = 0;
        while k < tiers.len()
            invariant
                k <= tiers@.len(),
                new == args_view(tiers@),
                new.len() == tiers@.len(),
                existing == v.tier_details,
                self.referral_storage_ok(),
                self.outside_referrals() == old(self).outside_referrals(),
                self.referral_state() == v,
                tiers_view(stored@) == existing + new.take(k as int),
                first_tier_fault(existing, new, k as nat) is None,
            decreases tiers@.len() - k,
        {
            let (name, min_volume, fee_percent) = &tiers[k];
            let tier = TierDetails { name: copy_bytes(name), min_volume: *min_volume, fee_percent: *fee_percent };
            proof {
                assert(new[k as int] == tier@);
                assert(first_tier_fault(existing, new, (k + 1) as nat) == tier_fault(
                    existing + new.take(k as int),
                    tier@,
                ));
            }
            if tier.fee_percent >= MAX_FEE_PERCENTAGE {
                proof {
                    lemma_tier_fault_persists(existing, new, (k + 1) as nat, new.len());
                }
                return Err(ReferralError::InvalidFeePercentage);
            }
            if tiers_contains(&stored, &tier) {
                proof {
                    lemma_tier_fault_persists(existing, new, (k + 1) as nat, new.len());
                }
                return Err(ReferralError::TierAlreadyExists);
            }
            let ghost before = tiers_view(stored@);
            stored.push(tier);
            proof {
                assert(tiers_view(stored@) =~= before.push(new[k as int]));
                assert(new.take(k + 1) =~= new.take(k as int).push(new[k as int]));
            }
            k += 1;
        }
        let mut k: usize = 0;
        while k < tiers.len()
            invariant
                k <= tiers@.len(),
                new == args_view(tiers@),
                new.len() == tiers@.len(),
                existing == v.tier_details,
                first_tier_fault(existing, new, new.len()) is None,
                self.referral_storage_ok(),
                self.outside_referrals() == old(self).outside_referrals(),
                self.referral_state() == (ReferralView { tier_details: existing + new.take(k as int), ..v }),
                inv(v) ==> forall|j: int|
                    0 <= j < (existing + new.take(k as int)).len() ==> (#[trigger] (existing + new.take(
                        k as int,
                    ))[j]).fee_percent < MAX_FEE_PERCENTAGE,
                (existing + new.take(k as int)).no_duplicates(),
            decreases tiers@.len() - k,
        {
            let (name, min_volume, fee_percent) = &tiers[k];
            let tier = TierDetails { name: copy_bytes(name), min_volume: *min_volume, fee_percent: *fee_percent };
            let ghost before = existing + new.take(k as int);
            proof {
                assert(new[k as int] == tier@);
                lemma_no_tier_fault(existing, new, new.len(), k as int);
                assert(new.take(k + 1) =~= new.take(k as int).push(new[k as int]));
                assert(existing + new.take(k + 1) =~= before.push(tier@));
            }
            let is_new = self.tier_details_insert(tier);
            proof {
                let s2 = before.push(new[k as int]);
                assert forall|a: int, b: int| 0 <= a < s2.len() && 0 <= b < s2.len() && a != b implies s2[a]
                    != s2[b] by {
                    if a < before.len() && b < before.len() {
                    } else if a < before.len() {
                        assert(before.contains(before[a]));
                    } else {
                        assert(before.contains(before[b]));
                    }
                }
                if inv(v) {
                    assert forall|j: int| 0 <= j < s2.len() implies (#[trigger] s2[j]).fee_percent
                        < MAX_FEE_PERCENTAGE by {
                        if j < before.len() {
                            assert(s2[j] == before[j]);
                        }
                    }
                }
                assert(self.referral_state() =~= (ReferralView { tier_details: s2, ..v }));
            }
            k += 1;
        }
        proof {
            assert(new.take(new.len() as int) =~= new);
            assert(self.referral_state() =~= add_tier_details_spec(v, new).unwrap());
        }
        Ok(())
    }

    /// Removes the first tier named `name`; the last tier takes its place.
    fn remove_tier_details(&mut self, name: &Vec<u8>) -> (r: Result<(), ReferralError>)
        requires
            old(self).referral_storage_ok(),
        ensures
            final(self).outside_referrals() == old(self).outside_referrals(),
            final(self).referral_storage_ok(),
            inv(old(self).referral_state()) ==> inv(final(self).referral_state()),
            match r {
                Ok(()) => remove_tier_details_spec(old(self).referral_state(), name@) == Ok::<
                    ReferralView,
                    ReferralError,
                >(final(self).referral_state()),
                Err(e) => remove_tier_details_spec(old(self).referral_state(), name@) == Err::<
                    ReferralView,
                    ReferralError,
                >(e) && final(self).referral_state() == old(self).referral_state(),
            },
    {
        proof {
            self.lemma_tiers_distinct();
        }
        let tier_list = self.tier_details();
        let ghost tiers = tiers_view(tier_list@);
        let ghost v = self.referral_state();
        let mut i: usize = 0;
        while i < tier_list.len()
            invariant
                i <= tier_list@.len(),
                tiers == tiers_view(tier_list@),
                tiers.len() == tier_list@.len(),
                tiers == v.tier_details,
                tiers.no_duplicates(),
                v == old(self).referral_state(),
                self.referral_storage_ok(),
                self.outside_referrals() == old(self).outside_referrals(),
                self.referral_state() == v,
                forall|j: int| 0 <= j < i ==> (#[trigger] tiers[j]).name != name@,
            decreases tier_list@.len() - i,
        {
            proof {
                assert(tiers[i as int] == tier_list@[i as int]@);
            }
            if bytes_eq(&tier_list[i].name, name) {
                proof {
                    assert(is_named(tiers, name@, i as int));
                    lemma_named_unique(tiers, name@, i as int);
                    assert(tiers.contains(tiers[i as int]));
                    let c = tiers.index_of(tiers[i as int]);
                    assert(0 <= c < tiers.len() && tiers[c] == tiers[i as int]);
                    assert(c == i);
                }
                self.tier_details_swap_remove(&tier_list[i]);
                proof {
                    let s2 = swap_removed(tiers, i as int);
                    let last = tiers.len() - 1;
                    assert forall|a: int, b: int| 0 <= a < s2.len() && 0 <= b < s2.len() && a != b implies s2[a]
                        != s2[b] by {
                        let a2 = if a == i { last } else { a };
                        let b2 = if b == i { last } else { b };
                        assert(s2[a] == tiers[a2]);
                        assert(s2[b] == tiers[b2]);
                    }
                    if inv(v) {
                        assert forall|j: int| 0 <= j < s2.len() implies (#[trigger] s2[j]).fee_percent
                            < MAX_FEE_PERCENTAGE by {
                            let j2 = if j == i { last } else { j };
                            assert(s2[j] == tiers[j2]);
                        }
                    }
                    assert(self.referral_state() =~= remove_tier_details_spec(v, name@).unwrap());
                }
                return Ok(());
            }
            i += 1;
        }
        proof {
            assert(!has_named(tiers, name@));
        }
        Err(ReferralError::TierNotFound)
    }

    /// Sets the share of a registered tag; the new share must be below
    /// [`MAX_FEE_PERCENTAGE`].
    fn set_referral_fee_percentage(&mut self, tag: Vec<u8>, new_percentage: u64) -> (r: Result<(), ReferralError>)
        requires
            old(self).referral_storage_ok(),
        ensures
            final(self).outside_referrals() == old(self).outside_referrals(),
            final(self).referral_storage_ok(),
            inv(old(self).referral_state()) ==> inv(final(self).referral_state()),
            match r {
                Ok(()) => set_referral_fee_percentage_spec(old(self).referral_state(), tag@, new_percentage) == Ok::<
                    ReferralView,
                    ReferralError,
                >(final(self).referral_state()),
                Err(e) => set_referral_fee_percentage_spec(old(self).referral_state(), tag@, new_percentage)
                    == Err::<ReferralView, ReferralError>(e) && final(self).referral_state()
                    == old(self).referral_state(),
            },
    {
        if new_percentage >= MAX_FEE_PERCENTAGE {
            return Err(ReferralError::InvalidNewPercentage);
        }
        if self.referral_tag_percent(&tag) == 0 {
            return Err(ReferralError::TagNotFound);
        }
        let ghost v = self.referral_state();
        self.set_referral_tag_percent(tag, new_percentage);
        proof {
            assert(self.referral_state() =~= set_referral_fee_percentage_spec(v, tag@, new_percentage).unwrap());
        }
        Ok(())
    }

    /// Removes the tag of `user`, which must own one, with its volume, share
    /// and collected fees; returns the payout of those fees to the user, when
    /// there are any.
    fn remove_referral_tag(&mut self, user_address: &Vec<u8>) -> (r: Result<Option<Payout>, ReferralError>)
        requires
            old(self).referral_storage_ok(),
        ensures
            final(self).outside_referrals() == old(self).outside_referrals(),
            final(self).referral_storage_ok(),
            inv(old(self).referral_state()) ==> inv(final(self).referral_state()),
            match r {
                Ok(p) => remove_referral_tag_spec(old(self).referral_state(), user_address@) == Ok::<
                    (ReferralView, Option<PayoutView>),
                    ReferralError,
                >((final(self).referral_state(), opt_payout_view(p))),
                Err(e) => remove_referral_tag_spec(old(self).referral_state(), user_address@) == Err::<
                    (ReferralView, Option<PayoutView>),
                    ReferralError,
                >(e) && final(self).referral_state() == old(self).referral_state(),
            },
    {
        let ghost v = self.referral_state();
        let rewards_token = self.rewards_token();
        let tag = self.user_tag_mapping(user_address);
        if tag.len() == 0 {
            return Err(ReferralError::TagNotFound);
        }
        let collected_amount = self.collected_tag_fees(&tag);
        let payout = if collected_amount > 0 {
            Some(Payout { to: copy_bytes(user_address), token_identifier: rewards_token, amount: collected_amount })
        } else {
            None
        };
        self.clear_accumulated_volume(&tag);
        self.clear_referral_tag_percent(&tag);
        self.clear_collected_tag_fees(&tag);
        self.clear_user_tag_mapping(user_address);
        proof {
            assert(self.referral_state() =~= remove_referral_tag_spec(v, user_address@).unwrap().0);
        }
        Ok(payout)
    }

    /// The fees collected and not yet claimed for the tag that `address`
    /// owns.
    fn get_collected_fee_amount(&self, address: &Vec<u8>) -> (r: u128)
        requires
            self.referral_storage_ok(),
        ensures
            r == collected_of(self.referral_state(), tag_of(self.referral_state(), address@)),
    {
        let tag = self.user_tag_mapping(address);
        self.collected_tag_fees(&tag)
    }

    /// Takes the referral share out of a fee paid under `tag`, adds it to the
    /// tag's collected fees and returns the rest of the fee.
    fn subtract_referral_fee_and_update_collected_fees(&mut self, fee_amount: u128, tag: Vec<u8>) -> (r: u128)
        requires
            old(self).referral_storage_ok(),
            referral_amount(fee_amount as nat, percent_of(old(self).referral_state(), tag@)) <= fee_amount,
            collected_of(old(self).referral_state(), tag@) + referral_amount(
                fee_amount as nat,
                percent_of(old(self).referral_state(), tag@),
            ) <= u128::MAX,
        ensures
            final(self).outside_referrals() == old(self).outside_referrals(),
            final(self).referral_storage_ok(),
            inv(old(self).referral_state()) ==> inv(final(self).referral_state()),
            (final(self).referral_state(), r as nat) == subtract_referral_fee_spec(
                old(self).referral_state(),
                fee_amount as nat,
                tag@,
            ),
    {
        let tag_percentage = self.referral_tag_percent(&tag);
        if tag_percentage == 0 {
            return fee_amount;
        }
        let referral = referral_share(fee_amount, tag_percentage);
        let collected = self.collected_tag_fees(&tag);
        let ghost v = self.referral_state();
        self.set_collected_tag_fees(tag, collected + referral);
        proof {
            assert(self.referral_state() =~= subtract_referral_fee_spec(v, fee_amount as nat, tag@).0);
        }
        fee_amount - referral
    }
}

/// A registered tag belongs to its registrant, starts with no volume and
/// takes the share of the first tier with a minimum volume of zero. While
/// that share is not zero, nobody can register the tag again; and a caller
/// who now owns a non-empty tag cannot register a free one.
pub proof fn lemma_register_claims_tag(v: ReferralView, caller: Seq<u8>, tag: Seq<u8>, other: Seq<u8>, tag2: Seq<u8>)
    ensures
        register_referral_tag_spec(v, caller, tag) matches Ok(v2) ==> {
            &&& tag_of(v2, caller) == tag
            &&& volume_of(v2, tag) == 0
            &&& percent_of(v2, tag) == v.tier_details[entry_tier(v.tier_details)].fee_percent
            &&& v.tier_details[entry_tier(v.tier_details)].min_volume == 0
            &&& (percent_of(v2, tag) != 0 ==> register_referral_tag_spec(v2, other, tag) == Err::<
                ReferralView,
                ReferralError,
            >(ReferralError::TagAlreadyRegistered))
            &&& (tag.len() != 0 && percent_of(v2, tag2) == 0 ==> register_referral_tag_spec(v2, caller, tag2)
                == Err::<ReferralView, ReferralError>(ReferralError::UserAlreadyOwnsTag))
        },
{
    if register_referral_tag_spec(v, caller, tag) is Ok {
        let k = choose|i: int| 0 <= i < v.tier_details.len() && (#[trigger] v.tier_details[i]).min_volume == 0;
        let m = least_entry_tier(v.tier_details, k);
        lemma_entry_tier_unique(v.tier_details, m);
    }
}

proof fn least_entry_tier(tiers: Seq<TierView>, k: int) -> (m: int)
    requires
        0 <= k < tiers.len(),
        tiers[k].min_volume == 0,
    ensures
        is_entry_tier(tiers, m),
    decreases k,
{
    if forall|j: int| 0 <= j < k ==> (#[trigger] tiers[j]).min_volume != 0 {
        k
    } else {
        let j = choose|j: int| 0 <= j < k && (#[trigger] tiers[j]).min_volume == 0;
        least_entry_tier(tiers, j)
    }
}

/// Claiming pays out exactly the fees collected for the caller's tag and
/// leaves none; a second claim right after is refused for want of fees.
pub proof fn lemma_claim_drains_fees(v: ReferralView, caller: Seq<u8>)
    ensures
        claim_referral_fees_spec(v, caller) matches Ok((v2, p)) ==> {
            &&& p.amount == collected_of(v, tag_of(v, caller))
            &&& p.amount > 0
            &&& p.to == caller
            &&& p.token_identifier == v.rewards_token
            &&& collected_of(v2, tag_of(v, caller)) == 0
            &&& claim_referral_fees_spec(v2, caller) == Err::<(ReferralView, PayoutView), ReferralError>(
                ReferralError::NoFeesToClaim,
            )
        },
{
}

/// An update raises the share of the caller's tag, to the highest share
/// among the tiers that its volume reaches; updating again right after finds
/// no upgrade.
pub proof fn lemma_update_tier_raises_share(v: ReferralView, caller: Seq<u8>)
    ensures
        update_tier_spec(v, caller) matches Ok((v2, name)) ==> {
            let tag = tag_of(v, caller);
            &&& percent_of(v2, tag) > percent_of(v, tag)
            &&& forall|j: int|
                0 <= j < v.tier_details.len() && volume_of(v, tag) >= (#[trigger] v.tier_details[j]).min_volume
                    ==> v.tier_details[j].fee_percent <= percent_of(v2, tag)
            &&& update_tier_spec(v2, caller) == Err::<(ReferralView, Seq<u8>), ReferralError>(
                ReferralError::NoTierUpgradeFound,
            )
        },
{
    if update_tier_spec(v, caller) is Ok {
        let tag = tag_of(v, caller);
        let tiers = v.tier_details;
        let vol = volume_of(v, tag);
        let cur = percent_of(v, tag);
        let w = choose|j: int| 0 <= j < tiers.len() && vol >= (#[trigger] tiers[j]).min_volume && tiers[j].fee_percent > cur;
        let i = least_best_upgrade(tiers, vol, cur, w);
        lemma_upgrade_unique(tiers, vol, cur, i);
        let v2 = update_tier_spec(v, caller).unwrap().0;
        assert(tag_of(v2, caller) == tag);
        assert(volume_of(v2, tag) == vol);
        assert(percent_of(v2, tag) == tiers[i].fee_percent);
        assert(!has_upgrade(v2.tier_details, vol, percent_of(v2, tag)));
    }
}

/// Among the tiers that `volume` reaches, the first one with the highest
/// share is an upgrade whenever one tier (`w`) offers more than `current`.
proof fn least_best_upgrade(tiers: Seq<TierView>, volume: nat, current: u64, w: int) -> (i: int)
    requires
        0 <= w < tiers.len(),
        volume >= tiers[w].min_volume,
        tiers[w].fee_percent > current,
    ensures
        is_upgrade(tiers, volume, current, i),
    decreases u64::MAX - tiers[w].fee_percent,
{
    if exists|j: int|
        0 <= j < tiers.len() && volume >= (#[trigger] tiers[j]).min_volume && tiers[j].fee_percent
            > tiers[w].fee_percent {
        let j = choose|j: int|
            0 <= j < tiers.len() && volume >= (#[trigger] tiers[j]).min_volume && tiers[j].fee_percent
                > tiers[w].fee_percent;
        least_best_upgrade(tiers, volume, current, j)
    } else {
        least_with_share(tiers, volume, current, w, w)
    }
}

/// When `w` carries the highest share among the tiers that `volume` reaches,
/// the first tier at or before `k` with that share is the upgrade.
proof fn least_with_share(tiers: Seq<TierView>, volume: nat, current: u64, w: int, k: int) -> (i: int)
    requires
        0 <= w < tiers.len(),
        0 <= k <= w,
        volume >= tiers[k].min_volume,
        tiers[k].fee_percent == tiers[w].fee_percent,
        tiers[w].fee_percent > current,
        forall|j: int|
            0 <= j < tiers.len() && volume >= (#[trigger] tiers[j]).min_volume ==> tiers[j].fee_percent
                <= tiers[w].fee_percent,
    ensures
        is_upgrade(tiers, volume, current, i),
    decreases k,
{
    if forall|j: int|
        0 <= j < k && volume >= (#[trigger] tiers[j]).min_volume ==> tiers[j].fee_percent < tiers[k].fee_percent {
        k
    } else {
        let j = choose|j: int|
            0 <= j < k && volume >= (#[trigger] tiers[j]).min_volume && !(tiers[j].fee_percent < tiers[k].fee_percent);
        least_with_share(tiers, volume, current, w, j)
    }
}

/// The referral share of a fee never exceeds the fee: what is added to the
/// tag's collected fees and what is returned add up to the fee.
pub proof fn lemma_referral_fee_splits(v: ReferralView, fee: nat, tag: Seq<u8>)
    requires
        inv(v),
        collected_of(v, tag) + referral_amount(fee, percent_of(v, tag)) <= u128::MAX,
    ensures
        referral_amount(fee, percent_of(v, tag)) <= fee,
        ({
            let (v2, rest) = subtract_referral_fee_spec(v, fee, tag);
            &&& rest <= fee
            &&& rest + (collected_of(v2, tag) - collected_of(v, tag)) == fee
            &&& percent_of(v, tag) == 0 ==> v2 == v && rest == fee
        }),
{
    let p = percent_of(v, tag);
    if p != 0 {
        assert(v.referral_tag_percent.contains_key(tag));
        lemma_referral_amount_split(fee, p as nat);
    }
}

/// Removing a user's tag is refused when the user owns none; otherwise it
/// leaves the user without a tag, the tag without share, volume or collected
/// fees, and pays out to the user exactly the fees that were collected; a
/// second removal right after is refused.
pub proof fn lemma_remove_referral_tag_clears(v: ReferralView, user: Seq<u8>)
    ensures
        tag_of(v, user).len() == 0 <==> remove_referral_tag_spec(v, user) is Err,
        remove_referral_tag_spec(v, user) matches Ok((v2, payout)) ==> {
            let tag = tag_of(v, user);
            &&& tag_of(v2, user).len() == 0
            &&& percent_of(v2, tag) == 0
            &&& volume_of(v2, tag) == 0
            &&& collected_of(v2, tag) == 0
            &&& match payout {
                Some(p) => p.amount == collected_of(v, tag) && p.to == user,
                None => collected_of(v, tag) == 0,
            }
            &&& remove_referral_tag_spec(v2, user) == Err::<(ReferralView, Option<PayoutView>), ReferralError>(
                ReferralError::TagNotFound,
            )
        },
{
}


/// A registered tag (one with a share) takes any new share below
/// [`MAX_FEE_PERCENTAGE`], higher or lower than its current one; afterwards
/// its share is exactly the new one and nothing else changes. A share at or
/// above the bound, or a tag without a share, is refused.
pub proof fn lemma_set_referral_fee_percentage_sets_share(v: ReferralView, tag: Seq<u8>, p: u64, other: Seq<u8>)
    ensures
        set_referral_fee_percentage_spec(v, tag, p) is Ok <==> (percent_of(v, tag) != 0 && p < MAX_FEE_PERCENTAGE),
        set_referral_fee_percentage_spec(v, tag, p) matches Ok(v2) ==> {
            &&& percent_of(v2, tag) == p
            &&& other != tag ==> percent_of(v2, other) == percent_of(v, other)
            &&& v2.user_tag_mapping == v.user_tag_mapping
            &&& v2.collected_tag_fees == v.collected_tag_fees
            &&& v2.tier_details == v.tier_details
            &&& v2.accumulated_volume == v.accumulated_volume
            &&& v2.rewards_token == v.rewards_token
        },
{
}

proof fn lemma_first_tier_fault_none(existing: Seq<TierView>, new: Seq<TierView>, n: nat)
    requires
        n <= new.len(),
    ensures
        first_tier_fault(existing, new, n) is None <==> forall|k: int|
            0 <= k < n ==> {
                &&& (#[trigger] new[k]).fee_percent < MAX_FEE_PERCENTAGE
                &&& !existing.contains(new[k])
                &&& forall|j: int| 0 <= j < k ==> new[j] != new[k]
            },
    decreases n,
{
    if n > 0 {
        lemma_first_tier_fault_none(existing, new, (n - 1) as nat);
        let k = n - 1;
        let before = existing + new.take(k);
        let t = new[k];
        let fresh = !existing.contains(t) && forall|j: int| 0 <= j < k ==> new[j] != t;
        if before.contains(t) {
            let idx = choose|idx: int| 0 <= idx < before.len() && before[idx] == t;
            if idx < existing.len() {
                assert(existing[idx] == t);
            } else {
                assert(new[idx - existing.len()] == t);
            }
            assert(!fresh);
        } else {
            if existing.contains(t) {
                let idx = choose|idx: int| 0 <= idx < existing.len() && existing[idx] == t;
                assert(before[idx] == t);
            }
            assert forall|j: int| 0 <= j < k implies new[j] != t by {
                assert(before[existing.len() + j] == new[j]);
            }
        }
    }
}

/// A batch of tiers is added, in order after the stored ones, exactly when
/// every new tier's share is below [`MAX_FEE_PERCENTAGE`], no new tier is
/// stored already, and no tier occurs twice in the batch; this holds
/// whatever tiers are stored. Nothing else changes. A refusal for the share
/// names a tier whose share is too high; a refusal for an existing tier names
/// one that is stored or repeated.
pub proof fn lemma_add_tier_details_adds(v: ReferralView, new: Seq<TierView>)
    ensures
        add_tier_details_spec(v, new) is Ok <==> {
            &&& forall|k: int| 0 <= k < new.len() ==> (#[trigger] new[k]).fee_percent < MAX_FEE_PERCENTAGE
            &&& forall|k: int| 0 <= k < new.len() ==> !v.tier_details.contains(#[trigger] new[k])
            &&& new.no_duplicates()
        },
        add_tier_details_spec(v, new) matches Ok(v2) ==> {
            &&& v2.tier_details == v.tier_details + new
            &&& v2.user_tag_mapping == v.user_tag_mapping
            &&& v2.collected_tag_fees == v.collected_tag_fees
            &&& v2.referral_tag_percent == v.referral_tag_percent
            &&& v2.accumulated_volume == v.accumulated_volume
            &&& v2.rewards_token == v.rewards_token
        },
        add_tier_details_spec(v, new) == Err::<ReferralView, ReferralError>(ReferralError::InvalidFeePercentage)
            ==> exists|k: int| 0 <= k < new.len() && (#[trigger] new[k]).fee_percent >= MAX_FEE_PERCENTAGE,
        add_tier_details_spec(v, new) == Err::<ReferralView, ReferralError>(ReferralError::TierAlreadyExists)
            ==> exists|k: int| 0 <= k < new.len() && (v.tier_details.contains(#[trigger] new[k]) || exists|j: int|
                0 <= j < k && new[j] == new[k]),
{
    let existing = v.tier_details;
    lemma_first_tier_fault_none(existing, new, new.len());
    let fault = first_tier_fault(existing, new, new.len());
    if fault is Some {
        let k = least_tier_fault(existing, new, new.len());
        lemma_tier_fault_persists(existing, new, (k + 1) as nat, new.len());
        let before = existing + new.take(k);
        if before.contains(new[k]) && new[k].fee_percent < MAX_FEE_PERCENTAGE {
            let idx = choose|idx: int| 0 <= idx < before.len() && before[idx] == new[k];
            if idx < existing.len() {
                assert(existing[idx] == new[k]);
                assert(existing.contains(new[k]));
            } else {
                assert(new[idx - existing.len()] == new[k]);
            }
        }
    }
    // no_duplicates and the pairwise form agree
    assert(new.no_duplicates() <==> forall|k: int|
        0 <= k < new.len() ==> forall|j: int| 0 <= j < k ==> new[j] != #[trigger] new[k]) by {
        if forall|k: int| 0 <= k < new.len() ==> forall|j: int| 0 <= j < k ==> new[j] != #[trigger] new[k] {
            assert forall|a: int, b: int| 0 <= a < new.len() && 0 <= b < new.len() && a != b implies new[a]
                != new[b] by {
                if a < b {
                    assert(new[a] != new[b]);
                } else {
                    assert(new[b] != new[a]);
                }
            }
        }
    }
}

/// The position of the first tier of a faulty batch whose turn fails.
proof fn least_tier_fault(existing: Seq<TierView>, new: Seq<TierView>, n: nat) -> (k: int)
    requires
        n <= new.len(),
        first_tier_fault(existing, new, n) is Some,
    ensures
        0 <= k < n,
        first_tier_fault(existing, new, k as nat) is None,
        first_tier_fault(existing, new, (k + 1) as nat) == tier_fault(existing + new.take(k), new[k]),
        tier_fault(existing + new.take(k), new[k]) is Some,
    decreases n,
{
    if first_tier_fault(existing, new, (n - 1) as nat) is Some {
        least_tier_fault(existing, new, (n - 1) as nat)
    } else {
        n - 1
    }
}

} // verus!
