//! The storage of a contract that uses every module, kept in memory.

use vstd::prelude::*;

use crate::fee_manager::{FeeManagerModule, FeeManagerView};
use crate::fee_payment_validator::FeePaymentValidatorModule;
use crate::multi_token_payment::MultiTokenPayModule;
use crate::payment::EgldOrEsdtTokenIdentifier;
use crate::referrals::{
    swap_removed, tiers_contains, tiers_view, ReferralModule, ReferralView, TierDetails, TierView,
};
use crate::storage::{copy_bytes, ByteMap};

verus! {

/// The storage of a contract that uses every module: the fee settings, the
/// accepted payment tokens and the referral records.
pub struct ContractStorage {
    fee_token: Vec<u8>,
    fee_amount: u128,
    accumulated_fees: u128,
    accepted_tokens: ByteMap<u128>,
    user_tag_mapping: ByteMap<Vec<u8>>,
    collected_tag_fees: ByteMap<u128>,
    referral_tag_percent: ByteMap<u64>,
    tier_details: Vec<TierDetails>,
    accumulated_volume: ByteMap<u128>,
    rewards_token: Vec<u8>,
}

impl ContractStorage {
    /// Empty storage: no fee settings, no accepted token, no tag, no tier.
    pub fn new() -> (c: Self)
        ensures
            c.fee_state() == (FeeManagerView { fee_token: Seq::empty(), fee_amount: 0, accumulated_fees: 0 }),
            c.accepted_tokens_ok(),
            c.accepted_state() == Map::<Seq<u8>, u128>::empty(),
            c.referral_storage_ok(),
            c.referral_state() == (ReferralView {
                user_tag_mapping: Map::empty(),
                collected_tag_fees: Map::empty(),
                referral_tag_percent: Map::empty(),
                tier_details: Seq::empty(),
                accumulated_volume: Map::empty(),
                rewards_token: Seq::empty(),
            }),
    {
        let c = ContractStorage {
            fee_token: Vec::new(),
            fee_amount: 0,
            accumulated_fees: 0,
            accepted_tokens: ByteMap::new(),
            user_tag_mapping: ByteMap::new(),
            collected_tag_fees: ByteMap::new(),
            referral_tag_percent: ByteMap::new(),
            tier_details: Vec::new(),
            accumulated_volume: ByteMap::new(),
            rewards_token: Vec::new(),
        };
        assert(c.fee_state().fee_token =~= Seq::<u8>::empty());
        assert(c.referral_state().tier_details =~= Seq::<TierView>::empty());
        assert(c.referral_state().rewards_token =~= Seq::<u8>::empty());
        c
    }
}

impl ContractStorage {
    /// Storage that agrees outside the fee fields holds the same accepted
    /// tokens and referral records: the fee operations leave them alone.
    pub proof fn lemma_fee_operations_frame(a: &Self, b: &Self)
        requires
            a.outside_fees() == b.outside_fees(),
        ensures
            a.accepted_state() == b.accepted_state(),
            a.accepted_tokens_ok() == b.accepted_tokens_ok(),
            a.referral_state() == b.referral_state(),
            a.referral_storage_ok() == b.referral_storage_ok(),
    {
        assert(a.accepted_tokens == a.outside_fees().accepted_tokens);
        assert(a.user_tag_mapping == a.outside_fees().user_tag_mapping);
        assert(a.collected_tag_fees == a.outside_fees().collected_tag_fees);
        assert(a.referral_tag_percent == a.outside_fees().referral_tag_percent);
        assert(a.tier_details == a.outside_fees().tier_details);
        assert(a.accumulated_volume == a.outside_fees().accumulated_volume);
        assert(a.rewards_token == a.outside_fees().rewards_token);
    }

    /// Storage that agrees outside the accepted tokens holds the same fee
    /// settings and referral records: the operations on accepted tokens leave
    /// them alone.
    pub proof fn lemma_accepted_token_operations_frame(a: &Self, b: &Self)
        requires
            a.outside_accepted_tokens() == b.outside_accepted_tokens(),
        ensures
            a.fee_state() == b.fee_state(),
            a.referral_state() == b.referral_state(),
            a.referral_storage_ok() == b.referral_storage_ok(),
    {
        assert(a.fee_token == a.outside_accepted_tokens().fee_token);
        assert(a.fee_amount == a.outside_accepted_tokens().fee_amount);
        assert(a.accumulated_fees == a.outside_accepted_tokens().accumulated_fees);
        assert(a.user_tag_mapping == a.outside_accepted_tokens().user_tag_mapping);
        assert(a.collected_tag_fees == a.outside_accepted_tokens().collected_tag_fees);
        assert(a.referral_tag_percent == a.outside_accepted_tokens().referral_tag_percent);
        assert(a.tier_details == a.outside_accepted_tokens().tier_details);
        assert(a.accumulated_volume == a.outside_accepted_tokens().accumulated_volume);
        assert(a.rewards_token == a.outside_accepted_tokens().rewards_token);
    }

    /// Storage that agrees outside the referral records holds the same fee
    /// settings and accepted tokens: the referral operations leave them
    /// alone.
    pub proof fn lemma_referral_operations_frame(a: &Self, b: &Self)
        requires
            a.outside_referrals() == b.outside_referrals(),
        ensures
            a.fee_state() == b.fee_state(),
            a.accepted_state() == b.accepted_state(),
            a.accepted_tokens_ok() == b.accepted_tokens_ok(),
    {
        assert(a.fee_token == a.outside_referrals().fee_token);
        assert(a.fee_amount == a.outside_referrals().fee_amount);
        assert(a.accumulated_fees == a.outside_referrals().accumulated_fees);
        assert(a.accepted_tokens == a.outside_referrals().accepted_tokens);
    }
}

impl FeeManagerModule for ContractStorage {
    closed spec fn outside_fees(&self) -> Self {
        ContractStorage { fee_token: arbitrary(), fee_amount: 0, accumulated_fees: 0, ..*self }
    }

    closed spec fn fee_state(&self) -> FeeManagerView {
        FeeManagerView {
            fee_token: self.fee_token@,
            fee_amount: self.fee_amount as nat,
            accumulated_fees: self.accumulated_fees as nat,
        }
    }

    fn fee_token(&self) -> (r: Vec<u8>) {
        copy_bytes(&self.fee_token)
    }

    fn fee_amount(&self) -> (r: u128) {
        self.fee_amount
    }

    fn accumulated_fees(&self) -> (r: u128) {
        self.accumulated_fees
    }

    fn set_fee_token(&mut self, fee_token: Vec<u8>) {
        self.fee_token = fee_token;
    }

    fn set_fee_amount(&mut self, fee_amount: u128) {
        self.fee_amount = fee_amount;
    }

    fn set_accumulated_fees(&mut self, amount: u128) {
        self.accumulated_fees = amount;
    }
}

impl FeePaymentValidatorModule for ContractStorage {

}

impl MultiTokenPayModule for ContractStorage {
    closed spec fn outside_accepted_tokens(&self) -> Self {
        ContractStorage { accepted_tokens: arbitrary(), ..*self }
    }

    closed spec fn accepted_state(&self) -> Map<Seq<u8>, u128> {
        self.accepted_tokens@
    }

    closed spec fn accepted_tokens_ok(&self) -> bool {
        self.accepted_tokens.wf()
    }

    fn accepted_tokens(&self, token: &EgldOrEsdtTokenIdentifier) -> (r: u128) {
        let key = token.encode();
        match self.accepted_tokens.get(&key) {
            Some(a) => *a,
            None => 0,
        }
    }

    fn set_accepted_tokens(&mut self, token: &EgldOrEsdtTokenIdentifier, amount: u128) {
        let key = token.encode();
        self.accepted_tokens.insert(key, amount);
    }

    fn clear_accepted_tokens(&mut self, token: &EgldOrEsdtTokenIdentifier) {
        let key = token.encode();
        self.accepted_tokens.remove(&key);
    }
}


impl ReferralModule for ContractStorage {
    closed spec fn outside_referrals(&self) -> Self {
        ContractStorage {
            user_tag_mapping: arbitrary(),
            collected_tag_fees: arbitrary(),
            referral_tag_percent: arbitrary(),
            tier_details: arbitrary(),
            accumulated_volume: arbitrary(),
            rewards_token: arbitrary(),
            ..*self
        }
    }

    closed spec fn referral_state(&self) -> ReferralView {
        ReferralView {
            user_tag_mapping: self.user_tag_mapping@,
            collected_tag_fees: self.collected_tag_fees@,
            referral_tag_percent: self.referral_tag_percent@,
            tier_details: tiers_view(self.tier_details@),
            accumulated_volume: self.accumulated_volume@,
            rewards_token: self.rewards_token@,
        }
    }

    closed spec fn referral_storage_ok(&self) -> bool {
        &&& self.user_tag_mapping.wf()
        &&& self.collected_tag_fees.wf()
        &&& self.referral_tag_percent.wf()
        &&& self.accumulated_volume.wf()
        &&& tiers_view(self.tier_details@).no_duplicates()
    }

    fn user_tag_mapping(&self, user: &Vec<u8>) -> (r: Vec<u8>) {
        match self.user_tag_mapping.get(user) {
            Some(t) => copy_bytes(t),
            None => {
                let r: Vec<u8> = Vec::new();
                assert(r@ =~= Seq::<u8>::empty());
                r
            },
        }
    }

    fn set_user_tag_mapping(&mut self, user: Vec<u8>, tag: Vec<u8>) {
        self.user_tag_mapping.insert(user, tag);
        assert(self.referral_state() =~= (ReferralView {
            user_tag_mapping: old(self).referral_state().user_tag_mapping.insert(user@, tag@),
            ..old(self).referral_state()
        }));
    }

    fn clear_user_tag_mapping(&mut self, user: &Vec<u8>) {
        self.user_tag_mapping.remove(user);
        assert(self.referral_state() =~= (ReferralView {
            user_tag_mapping: old(self).referral_state().user_tag_mapping.remove(user@),
            ..old(self).referral_state()
        }));
    }

    fn collected_tag_fees(&self, tag: &Vec<u8>) -> (r: u128) {
        match self.collected_tag_fees.get(tag) {
            Some(a) => *a,
            None => 0,
        }
    }

    fn set_collected_tag_fees(&mut self, tag: Vec<u8>, amount: u128) {
        self.collected_tag_fees.insert(tag, amount);
        assert(self.referral_state() =~= (ReferralView {
            collected_tag_fees: old(self).referral_state().collected_tag_fees.insert(tag@, amount),
            ..old(self).referral_state()
        }));
    }

    fn clear_collected_tag_fees(&mut self, tag: &Vec<u8>) {
        self.collected_tag_fees.remove(tag);
        assert(self.referral_state() =~= (ReferralView {
            collected_tag_fees: old(self).referral_state().collected_tag_fees.remove(tag@),
            ..old(self).referral_state()
        }));
    }

    fn referral_tag_percent(&self, tag: &Vec<u8>) -> (r: u64) {
        match self.referral_tag_percent.get(tag) {
            Some(p) => *p,
            None => 0,
        }
    }

    fn set_referral_tag_percent(&mut self, tag: Vec<u8>, percent: u64) {
        self.referral_tag_percent.insert(tag, percent);
        assert(self.referral_state() =~= (ReferralView {
            referral_tag_percent: old(self).referral_state().referral_tag_percent.insert(tag@, percent),
            ..old(self).referral_state()
        }));
    }

    fn clear_referral_tag_percent(&mut self, tag: &Vec<u8>) {
        self.referral_tag_percent.remove(tag);
        assert(self.referral_state() =~= (ReferralView {
            referral_tag_percent: old(self).referral_state().referral_tag_percent.remove(tag@),
            ..old(self).referral_state()
        }));
    }

    fn tier_details(&self) -> (r: Vec<TierDetails>) {
        crate::referrals::duplicate_tiers(&self.tier_details)
    }

    fn tier_details_insert(&mut self, tier: TierDetails) -> (r: bool) {
        if tiers_contains(&self.tier_details, &tier) {
            return false;
        }
        let ghost before = tiers_view(self.tier_details@);
        let ghost t = tier@;
        self.tier_details.push(tier);
        proof {
            let s2 = tiers_view(self.tier_details@);
            assert(s2 =~= before.push(t));
            assert forall|a: int, b: int| 0 <= a < s2.len() && 0 <= b < s2.len() && a != b implies s2[a]
                != s2[b] by {
                if a < before.len() && b < before.len() {
                    assert(s2[a] == before[a]);
                    assert(s2[b] == before[b]);
                } else if a < before.len() {
                    assert(s2[a] == before[a]);
                    assert(before.contains(before[a]));
                } else {
                    assert(s2[b] == before[b]);
                    assert(before.contains(before[b]));
                }
            }
            assert(self.referral_state() =~= (ReferralView { tier_details: before.push(t), ..old(self).referral_state() }));
        }
        true
    }

    fn tier_details_swap_remove(&mut self, tier: &TierDetails) -> (r: bool) {
        let ghost s = tiers_view(self.tier_details@);
        let mut i: usize = 0;
        while i < self.tier_details.len()
            invariant
                i <= self.tier_details@.len(),
                s == tiers_view(self.tier_details@),
                s.len() == self.tier_details@.len(),
                self.referral_storage_ok(),
                self.referral_state() == old(self).referral_state(),
                self.outside_referrals() == old(self).outside_referrals(),
                forall|j: int| 0 <= j < i ==> (#[trigger] s[j]) != tier@,
            decreases self.tier_details@.len() - i,
        {
            proof {
                assert(s[i as int] == self.tier_details@[i as int]@);
            }
            if self.tier_details[i].same_as(tier) {
                proof {
                    assert(s.contains(tier@));
                    let c = s.index_of(tier@);
                    assert(0 <= c < s.len() && s[c] == tier@);
                    assert(c == i);
                }
                self.tier_details.swap_remove(i);
                proof {
                    let s2 = tiers_view(self.tier_details@);
                    assert(s2 =~= swap_removed(s, i as int));
                    let last = s.len() - 1;
                    assert forall|a: int, b: int| 0 <= a < s2.len() && 0 <= b < s2.len() && a != b implies s2[a]
                        != s2[b] by {
                        let a2 = if a == i { last } else { a };
                        let b2 = if b == i { last } else { b };
                        assert(s2[a] == s[a2]);
                        assert(s2[b] == s[b2]);
                    }
                    assert(self.referral_state() =~= (ReferralView {
                        tier_details: swap_removed(s, i as int),
                        ..old(self).referral_state()
                    }));
                }
                return true;
            }
            i += 1;
        }
        false
    }

    proof fn lemma_tiers_distinct(&self) {
    }

    fn accumulated_volume(&self, tag: &Vec<u8>) -> (r: u128) {
        match self.accumulated_volume.get(tag) {
            Some(a) => *a,
            None => 0,
        }
    }

    fn set_accumulated_volume(&mut self, tag: Vec<u8>, volume: u128) {
        self.accumulated_volume.insert(tag, volume);
        assert(self.referral_state() =~= (ReferralView {
            accumulated_volume: old(self).referral_state().accumulated_volume.insert(tag@, volume),
            ..old(self).referral_state()
        }));
    }

    fn clear_accumulated_volume(&mut self, tag: &Vec<u8>) {
        self.accumulated_volume.remove(tag);
        assert(self.referral_state() =~= (ReferralView {
            accumulated_volume: old(self).referral_state().accumulated_volume.remove(tag@),
            ..old(self).referral_state()
        }));
    }

    fn rewards_token(&self) -> (r: Vec<u8>) {
        copy_bytes(&self.rewards_token)
    }

    fn set_rewards_token(&mut self, token: Vec<u8>) {
        self.rewards_token = token;
    }
}

} // verus!
