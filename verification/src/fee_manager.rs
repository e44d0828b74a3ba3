//! The fee settings of a contract and the fees that it has accumulated.

use vstd::prelude::*;

use crate::payment::{opt_payout_view, Payout, PayoutView};
use crate::storage::{bytes_eq, copy_bytes};

verus! {

/// The abstract state of a [`FeeManagerModule`].
pub struct FeeManagerView {
    /// The token in which fees are paid.
    pub fee_token: Seq<u8>,
    /// The fee charged per call.
    pub fee_amount: nat,
    /// The fees collected and not yet withdrawn.
    pub accumulated_fees: nat,
}

/// The state with the accumulated fees replaced.
pub open spec fn with_accumulated_fees(s: FeeManagerView, accumulated_fees: nat) -> FeeManagerView {
    FeeManagerView { fee_token: s.fee_token, fee_amount: s.fee_amount, accumulated_fees }
}

/// Withdrawing the fees: nothing happens while none have accumulated;
/// otherwise all of them are paid out to the owner, in the fee token, and
/// the accumulated amount drops to zero.
pub open spec fn withdraw_fees_spec(s: FeeManagerView, owner: Seq<u8>) -> (FeeManagerView, Option<PayoutView>) {
    if s.accumulated_fees == 0 {
        (s, None)
    } else {
        (
            with_accumulated_fees(s, 0),
            Some(PayoutView { to: owner, token_identifier: s.fee_token, amount: s.accumulated_fees }),
        )
    }
}

/// Changing the fee settings: when the fee token changes while fees are
/// held, those fees are first withdrawn to the owner; then the new token and
/// amount are stored.
pub open spec fn set_fee_settings_spec(
    s: FeeManagerView,
    owner: Seq<u8>,
    fee_token: Seq<u8>,
    fee_amount: nat,
) -> (FeeManagerView, Option<PayoutView>) {
    let (s1, payout) = if s.fee_token != fee_token && s.accumulated_fees > 0 {
        withdraw_fees_spec(s, owner)
    } else {
        (s, None)
    };
    (FeeManagerView { fee_token, fee_amount, accumulated_fees: s1.accumulated_fees }, payout)
}

/// The fee settings of a contract and the fees it has collected. The
/// implementor provides the storage (the getters and setters); the module
/// provides the operations on it.
pub trait FeeManagerModule: Sized {
    /// The storage with the fee settings and accumulated fees left out: the
    /// fee operations keep it as it was.
    spec fn outside_fees(&self) -> Self;

    /// The fee settings and accumulated fees held in storage.
    spec fn fee_state(&self) -> FeeManagerView;

    /// The token in which fees are paid.
    fn fee_token(&self) -> (r: Vec<u8>)
        ensures
            r@ == self.fee_state().fee_token,
    ;

    /// The fee charged per call.
    fn fee_amount(&self) -> (r: u128)
        ensures
            r == self.fee_state().fee_amount,
    ;

    /// The fees collected and not yet withdrawn.
    fn accumulated_fees(&self) -> (r: u128)
        ensures
            r == self.fee_state().accumulated_fees,
    ;

    /// Stores the fee token.
    fn set_fee_token(&mut self, fee_token: Vec<u8>)
        ensures
            final(self).outside_fees() == old(self).outside_fees(),
            final(self).fee_state() == (FeeManagerView { fee_token: fee_token@, ..old(self).fee_state() }),
    ;

    /// Stores the fee amount.
    fn set_fee_amount(&mut self, fee_amount: u128)
        ensures
            final(self).outside_fees() == old(self).outside_fees(),
            final(self).fee_state() == (FeeManagerView { fee_amount: fee_amount as nat, ..old(self).fee_state() }),
    ;

    /// Stores the accumulated fees.
    fn set_accumulated_fees(&mut self, amount: u128)
        ensures
            final(self).outside_fees() == old(self).outside_fees(),
            final(self).fee_state() == with_accumulated_fees(old(self).fee_state(), amount as nat),
    ;

    /// Sets the fee token and the fee amount. When the token changes while
    /// fees are held, returns the payout of those fees to `owner`, which the
    /// caller performs.
    fn set_fee_settings(&mut self, owner: &Vec<u8>, fee_token: Vec<u8>, fee_amount: u128) -> (r: Option<Payout>)
        ensures
            final(self).outside_fees() == old(self).outside_fees(),
            (final(self).fee_state(), opt_payout_view(r)) == set_fee_settings_spec(
                old(self).fee_state(),
                owner@,
                fee_token@,
                fee_amount as nat,
            ),
    {
        let current_fee_token = self.fee_token();
        let accumulated_fees = self.accumulated_fees();
        let mut payout: Option<Payout> = None;
        if !bytes_eq(&current_fee_token, &fee_token) && accumulated_fees > 0 {
            payout = self.withdraw_fees(owner);
        }
        self.set_fee_token(fee_token);
        self.set_fee_amount(fee_amount);
        payout
    }

    /// Pays out all accumulated fees to `owner` and resets them to zero;
    /// returns `None` when there is nothing to pay.
    fn withdraw_fees(&mut self, owner: &Vec<u8>) -> (r: Option<Payout>)
        ensures
            final(self).outside_fees() == old(self).outside_fees(),
            (final(self).fee_state(), opt_payout_view(r)) == withdraw_fees_spec(old(self).fee_state(), owner@),
    {
        let fee_token = self.fee_token();
        let accumulated_fees = self.accumulated_fees();
        if accumulated_fees == 0 {
            return None;
        }
        let payout = Payout { to: copy_bytes(owner), token_identifier: fee_token, amount: accumulated_fees };
        self.set_accumulated_fees(0);
        Some(payout)
    }
}

/// Withdrawing the fees empties them and pays out exactly what was held; a
/// second withdrawal right after pays nothing and changes nothing.
pub proof fn lemma_withdraw_fees_drains(s: FeeManagerView, owner: Seq<u8>)
    ensures
        withdraw_fees_spec(s, owner).0.accumulated_fees == 0,
        s.accumulated_fees > 0 ==> withdraw_fees_spec(s, owner).1 == Some(
            PayoutView { to: owner, token_identifier: s.fee_token, amount: s.accumulated_fees },
        ),
        withdraw_fees_spec(withdraw_fees_spec(s, owner).0, owner) == (withdraw_fees_spec(s, owner).0, None::<PayoutView>),
{
}

/// Changing the fee settings stores the new token and amount, and never loses
/// accumulated fees: what was held is either still held (same token) or paid
/// out in full to the owner, in the old token.
pub proof fn lemma_set_fee_settings_keeps_fees(s: FeeManagerView, owner: Seq<u8>, fee_token: Seq<u8>, fee_amount: nat)
    ensures
        ({
            let (t, payout) = set_fee_settings_spec(s, owner, fee_token, fee_amount);
            &&& t.fee_token == fee_token
            &&& t.fee_amount == fee_amount
            &&& match payout {
                Some(p) => p.amount == s.accumulated_fees && t.accumulated_fees == 0 && p.to == owner
                    && p.token_identifier == s.fee_token && p.amount > 0,
                None => t.accumulated_fees == s.accumulated_fees,
            }
            &&& (fee_token != s.fee_token && s.accumulated_fees > 0 <==> payout is Some)
        }),
{
}

} // verus!
