//! Fee collection, multi-token payment acceptance and referral tiers for a
//! smart contract, modelled as plain state machines over byte strings and
//! amounts.

pub mod storage;
pub mod payment;
pub mod fee_manager;
pub mod fee_payment_validator;
pub mod multi_token_payment;
pub mod referrals;
pub mod contract;
