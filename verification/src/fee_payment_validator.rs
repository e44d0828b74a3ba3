//! Taking the fee out of the payments that accompany a call.

use vstd::prelude::*;

use crate::fee_manager::{with_accumulated_fees, FeeManagerModule, FeeManagerView};
use crate::payment::{duplicate_payments, payments_view, total_amount, EsdtTokenPayment, PaymentView};
use crate::storage::bytes_eq;

verus! {

/// Why a call's payments could not pay the fee.
#[derive(Debug, Clone, Copy, PartialEq, Eq, Structural)]
pub enum FeeError {
    /// No payment came although a fee is due.
    InvalidFeeAmount,
    /// The payment that pays the fee is smaller than the fee.
    NotEnoughAmount,
    /// Among several payments, none is in the fee token.
    NoFeePayment,
}

/// The text of the message with which the contract rejects a call for `e`.
pub open spec fn fee_error_message(e: FeeError) -> Seq<char> {
    match e {
        FeeError::InvalidFeeAmount => "Invalid fee amount provided"@,
        FeeError::NotEnoughAmount => "Not enough amount to pay the fee"@,
        FeeError::NoFeePayment => "No fee payment provided"@,
    }
}

impl FeeError {
    /// The message with which the contract rejects the call.
    pub fn message(&self) -> (r: &'static str)
        ensures
            r@ == fee_error_message(*self),
    {
        match self {
            FeeError::InvalidFeeAmount => "Invalid fee amount provided",
            FeeError::NotEnoughAmount => "Not enough amount to pay the fee",
            FeeError::NoFeePayment => "No fee payment provided",
        }
    }
}

/// The payment with its amount lowered by `fee`.
pub open spec fn reduced_by(p: PaymentView, fee: nat) -> PaymentView {
    PaymentView { token_identifier: p.token_identifier, token_nonce: p.token_nonce, amount: (p.amount - fee) as nat }
}

/// `i` is the position of the first payment in `token`.
pub open spec fn is_fee_index(s: Seq<PaymentView>, token: Seq<u8>, i: int) -> bool {
    &&& 0 <= i < s.len()
    &&& s[i].token_identifier == token
    &&& forall|j: int| 0 <= j < i ==> (#[trigger] s[j]).token_identifier != token
}

/// Some payment is in `token`.
pub open spec fn has_fee_payment(s: Seq<PaymentView>, token: Seq<u8>) -> bool {
    exists|i: int| 0 <= i < s.len() && (#[trigger] s[i]).token_identifier == token
}

/// The position of the first payment in `token`.
pub open spec fn fee_index(s: Seq<PaymentView>, token: Seq<u8>) -> int {
    choose|i: int| is_fee_index(s, token, i)
}

/// The outcome of taking the fee from a single payment, whatever its token:
/// a payment of exactly the fee is used up, a larger one is lowered by the
/// fee, a smaller one is refused.
pub open spec fn process_one_payment_spec(s: FeeManagerView, p: PaymentView) -> Result<
    (FeeManagerView, Seq<PaymentView>),
    FeeError,
> {
    if p.amount == s.fee_amount {
        Ok((with_accumulated_fees(s, s.accumulated_fees + s.fee_amount), Seq::empty()))
    } else if p.amount > s.fee_amount {
        Ok((with_accumulated_fees(s, s.accumulated_fees + s.fee_amount), seq![reduced_by(p, s.fee_amount)]))
    } else {
        Err(FeeError::NotEnoughAmount)
    }
}

/// The outcome of taking the fee from several payments: the first payment in
/// the fee token pays it; it is lowered by the fee, or removed when it equals
/// the fee; the other payments pass unchanged, in their order.
pub open spec fn process_multiple_payments_spec(s: FeeManagerView, ps: Seq<PaymentView>) -> Result<
    (FeeManagerView, Seq<PaymentView>),
    FeeError,
> {
    if !has_fee_payment(ps, s.fee_token) {
        Err(FeeError::NoFeePayment)
    } else {
        let i = fee_index(ps, s.fee_token);
        let t = with_accumulated_fees(s, s.accumulated_fees + s.fee_amount);
        if ps[i].amount > s.fee_amount {
            Ok((t, ps.update(i, reduced_by(ps[i], s.fee_amount))))
        } else if ps[i].amount == s.fee_amount {
            Ok((t, ps.remove(i)))
        } else {
            Err(FeeError::NotEnoughAmount)
        }
    }
}

/// The outcome of taking the fee from the payments of a call: with no
/// payment, the call passes only when the fee is zero.
pub open spec fn process_fee_spec(s: FeeManagerView, ps: Seq<PaymentView>) -> Result<
    (FeeManagerView, Seq<PaymentView>),
    FeeError,
> {
    if ps.len() == 0 {
        if s.fee_amount == 0 {
            Ok((s, Seq::empty()))
        } else {
            Err(FeeError::InvalidFeeAmount)
        }
    } else if ps.len() == 1 {
        process_one_payment_spec(s, ps[0])
    } else {
        process_multiple_payments_spec(s, ps)
    }
}

proof fn lemma_fee_index_unique(s: Seq<PaymentView>, token: Seq<u8>, i: int)
    requires
        is_fee_index(s, token, i),
    ensures
        has_fee_payment(s, token),
        fee_index(s, token) == i,
{
    assert(s[i].token_identifier == token);
    let k = fee_index(s, token);
    assert(is_fee_index(s, token, k));
    if k < i {
        assert(s[k].token_identifier != token);
    } else if k > i {
        assert(s[i].token_identifier != token);
    }
}

/// Taking the fee out of the payments that accompany a call, on top of the
/// fee settings and accumulated fees of [`FeeManagerModule`].
pub trait FeePaymentValidatorModule: FeeManagerModule {
    /// Identifies the fee payment among the payments of a call, adds the fee
    /// to the accumulated fees and returns the payments that remain. On an
    /// error nothing changes.
    fn process_fee_from_payments(&mut self, payments: Vec<EsdtTokenPayment>) -> (r: Result<
        Vec<EsdtTokenPayment>,
        FeeError,
    >)
        requires
            old(self).fee_state().accumulated_fees + old(self).fee_state().fee_amount <= u128::MAX,
        ensures
            final(self).outside_fees() == old(self).outside_fees(),
            match r {
                Ok(out) => process_fee_spec(old(self).fee_state(), payments_view(payments@)) == Ok::<
                    (FeeManagerView, Seq<PaymentView>),
                    FeeError,
                >((final(self).fee_state(), payments_view(out@))),
                Err(e) => process_fee_spec(old(self).fee_state(), payments_view(payments@)) == Err::<
                    (FeeManagerView, Seq<PaymentView>),
                    FeeError,
                >(e) && final(self).fee_state() == old(self).fee_state(),
            },
    {
        let mut all_call_payments = payments;
        let n = all_call_payments.len();
        if n == 0 {
            if self.fee_amount() == 0 {
                let out: Vec<EsdtTokenPayment> = Vec::new();
                assert(payments_view(out@) =~= Seq::<PaymentView>::empty());
                Ok(out)
            } else {
                Err(FeeError::InvalidFeeAmount)
            }
        } else if n == 1 {
            let mut first = all_call_payments.remove(0);
            proof {
                assert(payments_view(payments@)[0] == first@);
            }
            self._process_one_payment(&mut first)
        } else {
            self._process_multiple_payments(&mut all_call_payments)
        }
    }

    /// Takes the fee from a single payment, whatever its token, and returns
    /// what remains of it: nothing when it equals the fee, the payment
    /// lowered by the fee when it is larger.
    fn _process_one_payment(&mut self, payment: &mut EsdtTokenPayment) -> (r: Result<
        Vec<EsdtTokenPayment>,
        FeeError,
    >)
        requires
            old(self).fee_state().accumulated_fees + old(self).fee_state().fee_amount <= u128::MAX,
        ensures
            final(self).outside_fees() == old(self).outside_fees(),
            match r {
                Ok(out) => process_one_payment_spec(old(self).fee_state(), old(payment)@) == Ok::<
                    (FeeManagerView, Seq<PaymentView>),
                    FeeError,
                >((final(self).fee_state(), payments_view(out@))),
                Err(e) => process_one_payment_spec(old(self).fee_state(), old(payment)@) == Err::<
                    (FeeManagerView, Seq<PaymentView>),
                    FeeError,
                >(e) && final(self).fee_state() == old(self).fee_state(),
            },
            final(payment)@ == (if old(payment)@.amount > old(self).fee_state().fee_amount {
                reduced_by(old(payment)@, old(self).fee_state().fee_amount)
            } else {
                old(payment)@
            }),
    {
        let fee_amount = self.fee_amount();
        if payment.amount == fee_amount {
            let accumulated = self.accumulated_fees();
            self.set_accumulated_fees(accumulated + fee_amount);
            let out: Vec<EsdtTokenPayment> = Vec::new();
            assert(payments_view(out@) =~= Seq::<PaymentView>::empty());
            return Ok(out);
        }
        if payment.amount > fee_amount {
            let accumulated = self.accumulated_fees();
            self.set_accumulated_fees(accumulated + fee_amount);
            payment.amount = payment.amount - fee_amount;
            let mut out: Vec<EsdtTokenPayment> = Vec::new();
            out.push(payment.duplicate());
            assert(payments_view(out@) =~= seq![reduced_by(old(payment)@, fee_amount as nat)]);
            return Ok(out);
        }
        Err(FeeError::NotEnoughAmount)
    }

    /// Takes the fee from the first payment in the fee token and returns the
    /// payments that remain, in their order: that payment is lowered by the
    /// fee, or removed when it equals the fee.
    fn _process_multiple_payments(&mut self, payments: &mut Vec<EsdtTokenPayment>) -> (r: Result<
        Vec<EsdtTokenPayment>,
        FeeError,
    >)
        requires
            old(self).fee_state().accumulated_fees + old(self).fee_state().fee_amount <= u128::MAX,
        ensures
            final(self).outside_fees() == old(self).outside_fees(),
            match r {
                Ok(out) => {
                    &&& process_multiple_payments_spec(old(self).fee_state(), payments_view(old(payments)@))
                        == Ok::<(FeeManagerView, Seq<PaymentView>), FeeError>(
                        (final(self).fee_state(), payments_view(out@)),
                    )
                    &&& payments_view(final(payments)@) == payments_view(out@)
                },
                Err(e) => {
                    &&& process_multiple_payments_spec(old(self).fee_state(), payments_view(old(payments)@))
                        == Err::<(FeeManagerView, Seq<PaymentView>), FeeError>(e)
                    &&& final(self).fee_state() == old(self).fee_state()
                    &&& payments_view(final(payments)@) == payments_view(old(payments)@)
                },
            },
    {
        let fee_amount = self.fee_amount();
        let fee_token = self.fee_token();
        let ghost s = self.fee_state();
        let ghost ps = payments_view(payments@);
        let mut i: usize = 0;
        while i < payments.len()
            invariant
                i <= payments@.len(),
                payments_view(payments@) == ps,
                ps.len() == payments@.len(),
                fee_token@ == s.fee_token,
                fee_amount == s.fee_amount,
                self.fee_state() == s,
                self.fee_state() == old(self).fee_state(),
                self.outside_fees() == old(self).outside_fees(),
                payments@ == old(payments)@,
                ps == payments_view(old(payments)@),
                s.accumulated_fees + s.fee_amount <= u128::MAX,
                forall|j: int| 0 <= j < i ==> (#[trigger] ps[j]).token_identifier != s.fee_token,
            decreases payments@.len() - i,
        {
            if bytes_eq(&payments[i].token_identifier, &fee_token) {
                proof {
                    assert(ps[i as int] == payments@[i as int]@);
                    assert(is_fee_index(ps, s.fee_token, i as int));
                    lemma_fee_index_unique(ps, s.fee_token, i as int);
                }
                let amount = payments[i].amount;
                if amount > fee_amount {
                    let accumulated = self.accumulated_fees();
                    self.set_accumulated_fees(accumulated + fee_amount);
                    let mut p = payments[i].duplicate();
                    p.amount = amount - fee_amount;
                    payments.set(i, p);
                    proof {
                        assert(payments_view(payments@) =~= ps.update(i as int, reduced_by(ps[i as int], fee_amount as nat)));
                    }
                    return Ok(duplicate_payments(payments));
                } else if amount == fee_amount {
                    let accumulated = self.accumulated_fees();
                    self.set_accumulated_fees(accumulated + fee_amount);
                    payments.remove(i);
                    proof {
                        assert(payments_view(payments@) =~= ps.remove(i as int));
                    }
                    return Ok(duplicate_payments(payments));
                } else {
                    return Err(FeeError::NotEnoughAmount);
                }
            }
            proof {
                assert(ps[i as int] == payments@[i as int]@);
            }
            i += 1;
        }
        proof {
            assert(!has_fee_payment(ps, s.fee_token));
        }
        Err(FeeError::NoFeePayment)
    }
}


proof fn lemma_total_update(s: Seq<PaymentView>, i: int, x: PaymentView)
    requires
        0 <= i < s.len(),
    ensures
        total_amount(s.update(i, x)) + s[i].amount == total_amount(s) + x.amount,
    decreases s.len(),
{
    let u = s.update(i, x);
    if i == s.len() - 1 {
        assert(u.drop_last() =~= s.drop_last());
    } else {
        assert(u.drop_last() =~= s.drop_last().update(i, x));
        lemma_total_update(s.drop_last(), i, x);
    }
}

proof fn lemma_total_remove(s: Seq<PaymentView>, i: int)
    requires
        0 <= i < s.len(),
    ensures
        total_amount(s.remove(i)) + s[i].amount == total_amount(s),
    decreases s.len(),
{
    let u = s.remove(i);
    if i == s.len() - 1 {
        assert(u =~= s.drop_last());
    } else {
        assert(u.drop_last() =~= s.drop_last().remove(i));
        assert(u.last() == s.last());
        lemma_total_remove(s.drop_last(), i);
    }
}

/// Taking the fee moves value and creates none: the amounts that came with
/// the call equal the amounts handed back plus what was added to the
/// accumulated fees, which is exactly the fee whenever a payment came. The
/// fee settings stay as they were.
pub proof fn lemma_fee_processing_conserves_value(s: FeeManagerView, ps: Seq<PaymentView>)
    ensures
        process_fee_spec(s, ps) matches Ok((t, out)) ==> {
            &&& t.accumulated_fees == s.accumulated_fees + (if ps.len() == 0 { 0 } else { s.fee_amount })
            &&& total_amount(ps) == total_amount(out) + (t.accumulated_fees - s.accumulated_fees)
            &&& t.fee_token == s.fee_token
            &&& t.fee_amount == s.fee_amount
        },
{
    if ps.len() == 0 {
        assert(total_amount(Seq::<PaymentView>::empty()) == 0);
    } else if ps.len() == 1 {
        assert(ps.drop_last() =~= Seq::<PaymentView>::empty());
        assert(total_amount(ps.drop_last()) == 0);
        let one = seq![reduced_by(ps[0], s.fee_amount)];
        assert(total_amount(Seq::<PaymentView>::empty()) == 0);
        assert(one.drop_last() =~= Seq::<PaymentView>::empty());
        assert(total_amount(one.drop_last()) == 0);
        assert(total_amount(one) == one[0].amount);
    } else if has_fee_payment(ps, s.fee_token) {
        let i = fee_index(ps, s.fee_token);
        let k = choose|k: int| 0 <= k < ps.len() && (#[trigger] ps[k]).token_identifier == s.fee_token;
        assert(is_fee_index(ps, s.fee_token, i)) by {
            // the least index holding the fee token witnesses `is_fee_index`
            let m = least_fee_index(ps, s.fee_token, k);
            assert(is_fee_index(ps, s.fee_token, m));
        }
        if ps[i].amount > s.fee_amount {
            lemma_total_update(ps, i, reduced_by(ps[i], s.fee_amount));
        } else if ps[i].amount == s.fee_amount {
            lemma_total_remove(ps, i);
        }
    }
}

/// Among several payments, the fee is taken from the first payment in the
/// fee token, wherever it stands, the last position included. The call is
/// refused for want of a fee payment exactly when no payment at all is in the
/// fee token. When the first fee-token payment is at least the fee, the call
/// succeeds: the fee is added to the accumulated fees, that payment is
/// removed when it equals the fee and lowered by the fee otherwise, and every
/// other payment comes back unchanged and in order; when it is smaller than
/// the fee, the call is refused for want of amount.
pub proof fn lemma_fee_payment_found_anywhere(s: FeeManagerView, ps: Seq<PaymentView>, i: int)
    requires
        ps.len() >= 2,
    ensures
        (process_fee_spec(s, ps) == Err::<(FeeManagerView, Seq<PaymentView>), FeeError>(FeeError::NoFeePayment))
            <==> (forall|j: int| 0 <= j < ps.len() ==> (#[trigger] ps[j]).token_identifier != s.fee_token),
        0 <= i < ps.len() && ps[i].token_identifier == s.fee_token && (forall|j: int|
            0 <= j < i ==> (#[trigger] ps[j]).token_identifier != s.fee_token) ==> {
            &&& ps[i].amount < s.fee_amount ==> process_fee_spec(s, ps) == Err::<
                (FeeManagerView, Seq<PaymentView>),
                FeeError,
            >(FeeError::NotEnoughAmount)
            &&& ps[i].amount >= s.fee_amount ==> (process_fee_spec(s, ps) matches Ok((t, out)) && {
                &&& t.accumulated_fees == s.accumulated_fees + s.fee_amount
                &&& t.fee_token == s.fee_token
                &&& t.fee_amount == s.fee_amount
                &&& ps[i].amount == s.fee_amount ==> {
                    &&& out.len() == ps.len() - 1
                    &&& forall|j: int| 0 <= j < i ==> #[trigger] out[j] == ps[j]
                    &&& forall|j: int| i <= j < out.len() ==> #[trigger] out[j] == ps[j + 1]
                }
                &&& ps[i].amount > s.fee_amount ==> {
                    &&& out.len() == ps.len()
                    &&& out[i].amount == ps[i].amount - s.fee_amount
                    &&& out[i].token_identifier == ps[i].token_identifier
                    &&& out[i].token_nonce == ps[i].token_nonce
                    &&& forall|j: int| 0 <= j < ps.len() && j != i ==> #[trigger] out[j] == ps[j]
                }
            })
        },
{
    if exists|j: int| 0 <= j < ps.len() && (#[trigger] ps[j]).token_identifier == s.fee_token {
        let k = choose|j: int| 0 <= j < ps.len() && (#[trigger] ps[j]).token_identifier == s.fee_token;
        let m = least_fee_index(ps, s.fee_token, k);
        lemma_fee_index_unique(ps, s.fee_token, m);
    }
    if 0 <= i < ps.len() && ps[i].token_identifier == s.fee_token && (forall|j: int|
        0 <= j < i ==> (#[trigger] ps[j]).token_identifier != s.fee_token) {
        assert(is_fee_index(ps, s.fee_token, i));
        lemma_fee_index_unique(ps, s.fee_token, i);
    }
}

proof fn least_fee_index(s: Seq<PaymentView>, token: Seq<u8>, k: int) -> (m: int)
    requires
        0 <= k < s.len(),
        s[k].token_identifier == token,
    ensures
        is_fee_index(s, token, m),
    decreases k,
{
    if forall|j: int| 0 <= j < k ==> (#[trigger] s[j]).token_identifier != token {
        k
    } else {
        let j = choose|j: int| 0 <= j < k && (#[trigger] s[j]).token_identifier == token;
        least_fee_index(s, token, j)
    }
}

} // verus!
