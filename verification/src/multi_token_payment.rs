//! Accepting payments in a configured set of tokens, each at a fixed amount.

use vstd::prelude::*;

use crate::payment::{egld_representation, payments_view, EgldOrEsdtTokenIdentifier, EsdtTokenPayment, PaymentView};
use crate::storage::copy_bytes;

verus! {

/// Why a payment was refused.
#[derive(Debug, Clone, Copy, PartialEq, Eq, Structural)]
pub enum PaymentError {
    /// A token was to be accepted at an amount of zero.
    AmountMustBePositive,
    /// The single payment is in a token that is not accepted.
    PaymentTokenNotAccepted,
    /// A payment's amount differs from the amount set for its token.
    InvalidPaymentAmount,
    /// One of several payments is in a token that is not accepted.
    InvalidPaymentToken,
    /// The call carried another number of ESDT transfers than expected.
    IncorrectNumberOfEsdtTransfers,
    /// The single ESDT transfer is not of a fungible token.
    FungibleTokenExpected,
}

/// The text of the message with which the contract rejects a call for `e`.
pub open spec fn payment_error_message(e: PaymentError) -> Seq<char> {
    match e {
        PaymentError::AmountMustBePositive => "Amount must be greater than 0"@,
        PaymentError::PaymentTokenNotAccepted => "Payment token not accepted"@,
        PaymentError::InvalidPaymentAmount => "Invalid payment amount"@,
        PaymentError::InvalidPaymentToken => "Invalid payment token"@,
        PaymentError::IncorrectNumberOfEsdtTransfers => "incorrect number of ESDT transfers"@,
        PaymentError::FungibleTokenExpected => "fungible ESDT token expected"@,
    }
}

impl PaymentError {
    /// The message with which the contract rejects the call.
    pub fn message(&self) -> (r: &'static str)
        ensures
            r@ == payment_error_message(*self),
    {
        match self {
            PaymentError::AmountMustBePositive => "Amount must be greater than 0",
            PaymentError::PaymentTokenNotAccepted => "Payment token not accepted",
            PaymentError::InvalidPaymentAmount => "Invalid payment amount",
            PaymentError::InvalidPaymentToken => "Invalid payment token",
            PaymentError::IncorrectNumberOfEsdtTransfers => "incorrect number of ESDT transfers",
            PaymentError::FungibleTokenExpected => "fungible ESDT token expected",
        }
    }
}

/// The amount at which a token is accepted; zero when it is not accepted.
pub open spec fn accepted_amount(m: Map<Seq<u8>, u128>, token: Seq<u8>) -> nat {
    if m.contains_key(token) {
        m[token] as nat
    } else {
        0
    }
}

/// Accepting a token at an amount, which must not be zero.
pub open spec fn add_payment_token_spec(m: Map<Seq<u8>, u128>, token: Seq<u8>, amount: u128) -> Result<
    Map<Seq<u8>, u128>,
    PaymentError,
> {
    if amount == 0 {
        Err(PaymentError::AmountMustBePositive)
    } else {
        Ok(m.insert(token, amount))
    }
}

/// The token and amount of a call that carries either native currency or a
/// single fungible ESDT transfer: with no ESDT transfer, the native currency
/// and its amount; with one of nonce zero, that transfer; otherwise refused.
pub open spec fn egld_or_single_fungible_esdt_spec(egld_value: nat, transfers: Seq<PaymentView>) -> Result<
    (Seq<u8>, nat),
    PaymentError,
> {
    if transfers.len() == 0 {
        Ok((egld_representation(), egld_value))
    } else if transfers.len() == 1 {
        if transfers[0].token_nonce != 0 {
            Err(PaymentError::FungibleTokenExpected)
        } else {
            Ok((transfers[0].token_identifier, transfers[0].amount))
        }
    } else {
        Err(PaymentError::IncorrectNumberOfEsdtTransfers)
    }
}

/// Whether a single payment is acceptable: its token must be accepted and its
/// amount must be the one set for that token.
pub open spec fn require_valid_payment_spec(m: Map<Seq<u8>, u128>, egld_value: nat, transfers: Seq<PaymentView>) -> Result<
    (),
    PaymentError,
> {
    match egld_or_single_fungible_esdt_spec(egld_value, transfers) {
        Err(e) => Err(e),
        Ok((token, amount)) => if accepted_amount(m, token) == 0 {
            Err(PaymentError::PaymentTokenNotAccepted)
        } else if amount != accepted_amount(m, token) {
            Err(PaymentError::InvalidPaymentAmount)
        } else {
            Ok(())
        },
    }
}

/// What is wrong with one of several payments, if anything.
pub open spec fn payment_fault(m: Map<Seq<u8>, u128>, p: PaymentView) -> Option<PaymentError> {
    if accepted_amount(m, p.token_identifier) == 0 {
        Some(PaymentError::InvalidPaymentToken)
    } else if p.amount != accepted_amount(m, p.token_identifier) {
        Some(PaymentError::InvalidPaymentAmount)
    } else {
        None
    }
}

/// The fault of the first faulty payment among the first `n`.
pub open spec fn first_fault(m: Map<Seq<u8>, u128>, ps: Seq<PaymentView>, n: nat) -> Option<PaymentError>
    decreases n,
{
    if n == 0 {
        None
    } else {
        match first_fault(m, ps, (n - 1) as nat) {
            Some(e) => Some(e),
            None => payment_fault(m, ps[n - 1]),
        }
    }
}

proof fn lemma_first_fault_persists(m: Map<Seq<u8>, u128>, ps: Seq<PaymentView>, k: nat, n: nat)
    requires
        k <= n,
        first_fault(m, ps, k) is Some,
    ensures
        first_fault(m, ps, n) == first_fault(m, ps, k),
    decreases n,
{
    if k < n {
        lemma_first_fault_persists(m, ps, k, (n - 1) as nat);
    }
}

/// Whether exactly `count` payments came and each of them is acceptable;
/// otherwise the count error, or the fault of the first faulty payment.
pub open spec fn require_valid_payments_spec(m: Map<Seq<u8>, u128>, ps: Seq<PaymentView>, count: nat) -> Result<
    (),
    PaymentError,
> {
    if ps.len() != count {
        Err(PaymentError::IncorrectNumberOfEsdtTransfers)
    } else {
        match first_fault(m, ps, ps.len()) {
            Some(e) => Err(e),
            None => Ok(()),
        }
    }
}

/// Reads the token and amount of a call that carries either native currency
/// or a single fungible ESDT transfer.
pub fn egld_or_single_fungible_esdt(egld_value: u128, esdt_transfers: &Vec<EsdtTokenPayment>) -> (r: Result<
    (EgldOrEsdtTokenIdentifier, u128),
    PaymentError,
>)
    ensures
        match r {
            Ok((token, amount)) => egld_or_single_fungible_esdt_spec(egld_value as nat, payments_view(esdt_transfers@))
                == Ok::<(Seq<u8>, nat), PaymentError>((token.encoded(), amount as nat))
                && (token is Egld <==> esdt_transfers@.len() == 0),
            Err(e) => egld_or_single_fungible_esdt_spec(egld_value as nat, payments_view(esdt_transfers@))
                == Err::<(Seq<u8>, nat), PaymentError>(e),
        },
{
    let n = esdt_transfers.len();
    if n == 0 {
        Ok((EgldOrEsdtTokenIdentifier::egld(), egld_value))
    } else if n == 1 {
        let p = esdt_transfers[0].duplicate();
        proof {
            assert(payments_view(esdt_transfers@)[0] == esdt_transfers@[0]@);
        }
        if p.token_nonce != 0 {
            Err(PaymentError::FungibleTokenExpected)
        } else {
            Ok((EgldOrEsdtTokenIdentifier::esdt(p.token_identifier), p.amount))
        }
    } else {
        Err(PaymentError::IncorrectNumberOfEsdtTransfers)
    }
}

/// Accepting payments in a configured set of tokens, each at a fixed amount.
/// The implementor provides the storage (the getters and setters); the
/// module provides the operations on it.
pub trait MultiTokenPayModule: Sized {
    /// The storage with the accepted tokens left out: the operations on
    /// accepted tokens keep it as it was.
    spec fn outside_accepted_tokens(&self) -> Self;

    /// The accepted tokens, keyed by their stored representation, with the
    /// amount that a payment in each must have.
    spec fn accepted_state(&self) -> Map<Seq<u8>, u128>;

    /// The storage's own consistency.
    spec fn accepted_tokens_ok(&self) -> bool;

    /// The amount at which `token` is accepted; zero when it is not.
    fn accepted_tokens(&self, token: &EgldOrEsdtTokenIdentifier) -> (r: u128)
        requires
            self.accepted_tokens_ok(),
        ensures
            r == accepted_amount(self.accepted_state(), token.encoded()),
    ;

    /// Stores the amount at which `token` is accepted.
    fn set_accepted_tokens(&mut self, token: &EgldOrEsdtTokenIdentifier, amount: u128)
        requires
            old(self).accepted_tokens_ok(),
        ensures
            final(self).outside_accepted_tokens() == old(self).outside_accepted_tokens(),
            final(self).accepted_tokens_ok(),
            final(self).accepted_state() == old(self).accepted_state().insert(token.encoded(), amount),
    ;

    /// Clears what is stored for `token`.
    fn clear_accepted_tokens(&mut self, token: &EgldOrEsdtTokenIdentifier)
        requires
            old(self).accepted_tokens_ok(),
        ensures
            final(self).outside_accepted_tokens() == old(self).outside_accepted_tokens(),
            final(self).accepted_tokens_ok(),
            final(self).accepted_state() == old(self).accepted_state().remove(token.encoded()),
    ;

    /// Accepts payments in `token` of exactly `amount`, which must not be
    /// zero.
    fn add_payment_token(&mut self, token: EgldOrEsdtTokenIdentifier, amount: u128) -> (r: Result<(), PaymentError>)
        requires
            old(self).accepted_tokens_ok(),
        ensures
            final(self).outside_accepted_tokens() == old(self).outside_accepted_tokens(),
            final(self).accepted_tokens_ok(),
            match r {
                Ok(()) => add_payment_token_spec(old(self).accepted_state(), token.encoded(), amount) == Ok::<
                    Map<Seq<u8>, u128>,
                    PaymentError,
                >(final(self).accepted_state()),
                Err(e) => add_payment_token_spec(old(self).accepted_state(), token.encoded(), amount) == Err::<
                    Map<Seq<u8>, u128>,
                    PaymentError,
                >(e) && final(self).accepted_state() == old(self).accepted_state(),
            },
    {
        if amount == 0 {
            return Err(PaymentError::AmountMustBePositive);
        }
        self.set_accepted_tokens(&token, amount);
        Ok(())
    }

    /// Stops accepting `token`.
    fn remove_payment_token(&mut self, token: EgldOrEsdtTokenIdentifier)
        requires
            old(self).accepted_tokens_ok(),
        ensures
            final(self).outside_accepted_tokens() == old(self).outside_accepted_tokens(),
            final(self).accepted_tokens_ok(),
            final(self).accepted_state() == old(self).accepted_state().remove(token.encoded()),
    {
        self.clear_accepted_tokens(&token);
    }

    /// Checks the payment of a call that carries either native currency or a
    /// single fungible ESDT transfer: its token must be accepted and its
    /// amount must be the one set for that token.
    fn require_valid_payment(&self, egld_value: u128, esdt_transfers: &Vec<EsdtTokenPayment>) -> (r: Result<
        (),
        PaymentError,
    >)
        requires
            self.accepted_tokens_ok(),
        ensures
            r == require_valid_payment_spec(self.accepted_state(), egld_value as nat, payments_view(esdt_transfers@)),
    {
        let (token, amount) = egld_or_single_fungible_esdt(egld_value, esdt_transfers)?;
        let expected_amount = self.accepted_tokens(&token);
        if expected_amount == 0 {
            return Err(PaymentError::PaymentTokenNotAccepted);
        }
        if amount != expected_amount {
            return Err(PaymentError::InvalidPaymentAmount);
        }
        Ok(())
    }

    /// Checks that exactly `X` ESDT transfers came with the call, each in an
    /// accepted token and of the amount set for it.
    fn require_valid_payments<const X: usize>(&self, esdt_transfers: &Vec<EsdtTokenPayment>) -> (r: Result<
        (),
        PaymentError,
    >)
        requires
            self.accepted_tokens_ok(),
        ensures
            r == require_valid_payments_spec(self.accepted_state(), payments_view(esdt_transfers@), X as nat),
    {
        if esdt_transfers.len() != X {
            return Err(PaymentError::IncorrectNumberOfEsdtTransfers);
        }
        let ghost m = self.accepted_state();
        let ghost ps = payments_view(esdt_transfers@);
        let mut i: usize = 0;
        while i < esdt_transfers.len()
            invariant
                i <= esdt_transfers@.len(),
                self.accepted_tokens_ok(),
                m == self.accepted_state(),
                ps == payments_view(esdt_transfers@),
                ps.len() == esdt_transfers@.len(),
                esdt_transfers@.len() == X,
                first_fault(m, ps, i as nat) is None,
            decreases esdt_transfers@.len() - i,
        {
            let payment = &esdt_transfers[i];
            proof {
                assert(ps[i as int] == payment@);
            }
            let token_id = EgldOrEsdtTokenIdentifier::esdt(copy_bytes(&payment.token_identifier));
            let expected_amount = self.accepted_tokens(&token_id);
            proof {
                if payment_fault(m, ps[i as int]) is Some {
                    lemma_first_fault_persists(m, ps, (i + 1) as nat, ps.len());
                }
            }
            if expected_amount == 0 {
                return Err(PaymentError::InvalidPaymentToken);
            }
            if payment.amount != expected_amount {
                return Err(PaymentError::InvalidPaymentAmount);
            }
            i += 1;
        }
        Ok(())
    }
}

/// Once a token is accepted at an amount, a single fungible payment in it
/// passes exactly when it carries that amount, whether it is checked alone or
/// as the one expected payment; the native currency, sent with no ESDT
/// transfer, is checked the same way.
pub proof fn lemma_accepted_token_validates(m: Map<Seq<u8>, u128>, token: Seq<u8>, amount: u128, p: PaymentView, egld_value: nat)
    requires
        p.token_identifier == token,
        p.token_nonce == 0,
    ensures
        add_payment_token_spec(m, token, amount) matches Ok(m2) ==> {
            &&& require_valid_payment_spec(m2, egld_value, seq![p]) == if p.amount == amount {
                Ok::<(), PaymentError>(())
            } else {
                Err(PaymentError::InvalidPaymentAmount)
            }
            &&& require_valid_payments_spec(m2, seq![p], 1) == if p.amount == amount {
                Ok::<(), PaymentError>(())
            } else {
                Err(PaymentError::InvalidPaymentAmount)
            }
        },
        add_payment_token_spec(m, egld_representation(), amount) matches Ok(m2) ==> require_valid_payment_spec(
            m2,
            egld_value,
            Seq::empty(),
        ) == if egld_value == amount {
            Ok::<(), PaymentError>(())
        } else {
            Err(PaymentError::InvalidPaymentAmount)
        },
{
    reveal_with_fuel(first_fault, 2);
    assert(seq![p][0] == p);
}

/// Once a token is no longer accepted, any single payment in it is refused,
/// whether it is checked alone or as the one expected payment.
pub proof fn lemma_removed_token_refused(m: Map<Seq<u8>, u128>, token: Seq<u8>, p: PaymentView, egld_value: nat)
    requires
        p.token_identifier == token,
        p.token_nonce == 0,
    ensures
        require_valid_payment_spec(m.remove(token), egld_value, seq![p]) == Err::<(), PaymentError>(
            PaymentError::PaymentTokenNotAccepted,
        ),
        require_valid_payments_spec(m.remove(token), seq![p], 1) == Err::<(), PaymentError>(
            PaymentError::InvalidPaymentToken,
        ),
{
    reveal_with_fuel(first_fault, 2);
    assert(seq![p][0] == p);
}


/// Every accepted token is stored with the amount that a payment in it must
/// have, which is never zero: adding and removing tokens keep it so.
pub proof fn lemma_accepted_amounts_positive(m: Map<Seq<u8>, u128>, token: Seq<u8>, amount: u128)
    requires
        forall|t: Seq<u8>| #[trigger] m.contains_key(t) ==> m[t] > 0,
    ensures
        add_payment_token_spec(m, token, amount) matches Ok(m2) ==> forall|t: Seq<u8>| #[trigger]
            m2.contains_key(t) ==> m2[t] > 0,
        forall|t: Seq<u8>| #[trigger] m.remove(token).contains_key(t) ==> m.remove(token)[t] > 0,
{
}


proof fn lemma_first_fault_none(m: Map<Seq<u8>, u128>, ps: Seq<PaymentView>, n: nat)
    requires
        n <= ps.len(),
    ensures
        first_fault(m, ps, n) is None <==> forall|i: int| 0 <= i < n ==> #[trigger] payment_fault(m, ps[i]) is None,
    decreases n,
{
    if n > 0 {
        lemma_first_fault_none(m, ps, (n - 1) as nat);
    }
}

/// Exactly `X` transfers must come: any other number, more or fewer, is
/// refused for its count, whatever the transfers are. With the right number,
/// the call passes exactly when every transfer is in an accepted token and
/// carries the amount set for it; otherwise the first transfer that does not
/// decides the error: an unaccepted token, or a wrong amount.
pub proof fn lemma_payments_count_and_amounts(m: Map<Seq<u8>, u128>, ps: Seq<PaymentView>, count: nat)
    ensures
        ps.len() != count ==> require_valid_payments_spec(m, ps, count) == Err::<(), PaymentError>(
            PaymentError::IncorrectNumberOfEsdtTransfers,
        ),
        ps.len() == count ==> (require_valid_payments_spec(m, ps, count) == Ok::<(), PaymentError>(()) <==> forall|
            i: int,
        |
            0 <= i < ps.len() ==> accepted_amount(m, (#[trigger] ps[i]).token_identifier) != 0 && ps[i].amount
                == accepted_amount(m, ps[i].token_identifier)),
        forall|i: int|
            0 <= i < ps.len() == count && (forall|j: int|
                0 <= j < i ==> accepted_amount(m, (#[trigger] ps[j]).token_identifier) != 0 && ps[j].amount
                    == accepted_amount(m, ps[j].token_identifier)) ==> {
                &&& accepted_amount(m, (#[trigger] ps[i]).token_identifier) == 0 ==> require_valid_payments_spec(
                    m,
                    ps,
                    count,
                ) == Err::<(), PaymentError>(PaymentError::InvalidPaymentToken)
                &&& accepted_amount(m, ps[i].token_identifier) != 0 && ps[i].amount != accepted_amount(
                    m,
                    ps[i].token_identifier,
                ) ==> require_valid_payments_spec(m, ps, count) == Err::<(), PaymentError>(
                    PaymentError::InvalidPaymentAmount,
                )
            },
{
    lemma_first_fault_none(m, ps, ps.len());
    assert forall|i: int| 0 <= i < ps.len() implies (#[trigger] payment_fault(m, ps[i]) is None <==> (accepted_amount(
        m,
        ps[i].token_identifier,
    ) != 0 && ps[i].amount == accepted_amount(m, ps[i].token_identifier))) by {}
    if ps.len() == count {
        let good = forall|i: int|
            0 <= i < ps.len() ==> accepted_amount(m, (#[trigger] ps[i]).token_identifier) != 0 && ps[i].amount
                == accepted_amount(m, ps[i].token_identifier);
        if good {
            assert forall|i: int| 0 <= i < ps.len() implies #[trigger] payment_fault(m, ps[i]) is None by {
                assert(accepted_amount(m, ps[i].token_identifier) != 0);
            }
            assert(first_fault(m, ps, ps.len()) is None);
        }
        if first_fault(m, ps, ps.len()) is None {
            assert forall|i: int| 0 <= i < ps.len() implies accepted_amount(m, (#[trigger] ps[i]).token_identifier)
                != 0 && ps[i].amount == accepted_amount(m, ps[i].token_identifier) by {
                assert(payment_fault(m, ps[i]) is None);
            }
        }
    }
    assert forall|i: int|
        0 <= i < ps.len() == count && (forall|j: int|
            0 <= j < i ==> accepted_amount(m, (#[trigger] ps[j]).token_identifier) != 0 && ps[j].amount
                == accepted_amount(m, ps[j].token_identifier)) implies {
        &&& accepted_amount(m, (#[trigger] ps[i]).token_identifier) == 0 ==> require_valid_payments_spec(m, ps, count)
            == Err::<(), PaymentError>(PaymentError::InvalidPaymentToken)
        &&& accepted_amount(m, ps[i].token_identifier) != 0 && ps[i].amount != accepted_amount(
            m,
            ps[i].token_identifier,
        ) ==> require_valid_payments_spec(m, ps, count) == Err::<(), PaymentError>(PaymentError::InvalidPaymentAmount)
    } by {
        lemma_first_fault_none(m, ps, i as nat);
        assert forall|j: int| 0 <= j < i implies #[trigger] payment_fault(m, ps[j]) is None by {
            assert(accepted_amount(m, ps[j].token_identifier) != 0);
        }
        assert(first_fault(m, ps, (i + 1) as nat) == payment_fault(m, ps[i]));
        if payment_fault(m, ps[i]) is Some {
            lemma_first_fault_persists(m, ps, (i + 1) as nat, ps.len());
        }
    }
}

/// Any non-zero amount is accepted for any token, replacing whatever amount
/// was set for it before; the amounts of all other tokens stay as they were.
/// An amount of zero is refused.
pub proof fn lemma_add_payment_token_sets_amount(m: Map<Seq<u8>, u128>, token: Seq<u8>, amount: u128)
    ensures
        amount == 0 <==> add_payment_token_spec(m, token, amount) is Err,
        add_payment_token_spec(m, token, amount) matches Ok(m2) ==> {
            &&& accepted_amount(m2, token) == amount
            &&& forall|t: Seq<u8>| t != token ==> #[trigger] accepted_amount(m2, t) == accepted_amount(m, t)
        },
{
}

} // verus!
