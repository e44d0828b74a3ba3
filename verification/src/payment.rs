//! Token identifiers, payments and the transfers that the modules ask for.

use vstd::prelude::*;

use crate::storage::copy_bytes;

verus! {

/// The bytes `EGLD`, the representation under which the native currency is
/// stored and compared.
pub open spec fn egld_representation() -> Seq<u8> {
    seq![69u8, 71u8, 76u8, 68u8]
}

/// The identifier of either the native currency (EGLD) or an ESDT token.
#[derive(Debug, Clone, PartialEq, Eq)]
pub enum EgldOrEsdtTokenIdentifier {
    Egld,
    Esdt(Vec<u8>),
}

impl EgldOrEsdtTokenIdentifier {
    /// The bytes under which the identifier is stored: `EGLD` for the native
    /// currency, the token's own identifier otherwise.
    pub open spec fn encoded(&self) -> Seq<u8> {
        match self {
            EgldOrEsdtTokenIdentifier::Egld => egld_representation(),
            EgldOrEsdtTokenIdentifier::Esdt(token) => token@,
        }
    }

    /// The identifier of the native currency.
    pub fn egld() -> (r: Self)
        ensures
            r == EgldOrEsdtTokenIdentifier::Egld,
    {
        EgldOrEsdtTokenIdentifier::Egld
    }

    /// The identifier of an ESDT token.
    pub fn esdt(token: Vec<u8>) -> (r: Self)
        ensures
            r.encoded() == token@,
            r matches EgldOrEsdtTokenIdentifier::Esdt(t) && t@ == token@,
    {
        EgldOrEsdtTokenIdentifier::Esdt(token)
    }

    /// Whether this is the native currency.
    pub fn is_egld(&self) -> (r: bool)
        ensures
            r == (self is Egld),
    {
        match self {
            EgldOrEsdtTokenIdentifier::Egld => true,
            EgldOrEsdtTokenIdentifier::Esdt(_) => false,
        }
    }

    /// The bytes under which the identifier is stored.
    pub fn encode(&self) -> (r: Vec<u8>)
        ensures
            r@ == self.encoded(),
    {
        match self {
            EgldOrEsdtTokenIdentifier::Egld => {
                let r = vec![69u8, 71u8, 76u8, 68u8];
                assert(r@ =~= egld_representation());
                r
            },
            EgldOrEsdtTokenIdentifier::Esdt(token) => copy_bytes(token),
        }
    }
}

/// The abstract value of an [`EsdtTokenPayment`].
pub struct PaymentView {
    pub token_identifier: Seq<u8>,
    pub token_nonce: u64,
    pub amount: nat,
}

/// A transfer of an ESDT token that accompanies a call.
#[derive(Debug, Clone, PartialEq, Eq)]
pub struct EsdtTokenPayment {
    pub token_identifier: Vec<u8>,
    pub token_nonce: u64,
    pub amount: u128,
}

impl View for EsdtTokenPayment {
    type V = PaymentView;

    open spec fn view(&self) -> PaymentView {
        PaymentView {
            token_identifier: self.token_identifier@,
            token_nonce: self.token_nonce,
            amount: self.amount as nat,
        }
    }
}

/// The abstract value of a list of payments.
pub open spec fn payments_view(v: Seq<EsdtTokenPayment>) -> Seq<PaymentView> {
    v.map_values(|p: EsdtTokenPayment| p@)
}

/// The total amount of a list of payments.
pub open spec fn total_amount(s: Seq<PaymentView>) -> nat
    decreases s.len(),
{
    if s.len() == 0 {
        0
    } else {
        total_amount(s.drop_last()) + s.last().amount
    }
}

impl EsdtTokenPayment {
    /// A payment of `amount` units of the token, with nonce `token_nonce`.
    pub fn new(token_identifier: Vec<u8>, token_nonce: u64, amount: u128) -> (r: Self)
        ensures
            r.token_identifier@ == token_identifier@,
            r.token_nonce == token_nonce,
            r.amount == amount,
    {
        EsdtTokenPayment { token_identifier, token_nonce, amount }
    }

    /// A copy of the payment.
    pub fn duplicate(&self) -> (r: Self)
        ensures
            r@ == self@,
    {
        EsdtTokenPayment {
            token_identifier: copy_bytes(&self.token_identifier),
            token_nonce: self.token_nonce,
            amount: self.amount,
        }
    }
}

/// Copies a list of payments.
pub fn duplicate_payments(v: &Vec<EsdtTokenPayment>) -> (r: Vec<EsdtTokenPayment>)
    ensures
        payments_view(r@) == payments_view(v@),
{
    let mut r: Vec<EsdtTokenPayment> = Vec::new();
    let mut i: usize = 0;
    while i < v.len()
        invariant
            i <= v@.len(),
            r@.len() == i,
            forall|j: int| 0 <= j < i ==> (#[trigger] r@[j])@ == v@[j]@,
        decreases v@.len() - i,
    {
        r.push(v[i].duplicate());
        i += 1;
    }
    assert(payments_view(r@) =~= payments_view(v@));
    r
}

/// The abstract value of a [`Payout`].
pub struct PayoutView {
    pub to: Seq<u8>,
    pub token_identifier: Seq<u8>,
    pub amount: nat,
}

/// A transfer of fungible tokens out of the contract that an operation asks
/// the caller to perform.
#[derive(Debug, Clone, PartialEq, Eq)]
pub struct Payout {
    pub to: Vec<u8>,
    pub token_identifier: Vec<u8>,
    pub amount: u128,
}

impl View for Payout {
    type V = PayoutView;

    open spec fn view(&self) -> PayoutView {
        PayoutView { to: self.to@, token_identifier: self.token_identifier@, amount: self.amount as nat }
    }
}

/// The abstract value of an optional payout.
pub open spec fn opt_payout_view(p: Option<Payout>) -> Option<PayoutView> {
    match p {
        Some(p) => Some(p@),
        None => None,
    }
}

} // verus!
