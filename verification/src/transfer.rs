//! Payments that an operation asks its caller to make.
//!
//! The ledger never moves assets itself. An operation first commits its own
//! bookkeeping and then returns the payments that are due, so that no payment
//! can be made against a half-settled ledger.
//!
//! Bookkeeping and payments stand or fall together. A caller whose payments
//! can fail keeps a copy of the ledger from before the operation, or works
//! where a failed call is undone as a whole, and goes back to the state
//! before when a payment is not made. The ledger itself never retries and
//! never reconciles.

use vstd::prelude::*;
use crate::bignat::BigNat;
use crate::identity::{Address, TokenId};

verus! {

/// An amount of an asset to be paid to an account.
#[derive(Debug)]
pub struct Transfer {
    pub token: TokenId,
    pub to: Address,
    pub amount: BigNat,
}

/// A payment as the model sees it.
pub struct TransferView {
    pub token: Seq<u8>,
    pub to: Seq<u8>,
    pub amount: nat,
}

impl View for Transfer {
    type V = TransferView;

    open spec fn view(&self) -> TransferView {
        TransferView { token: self.token@, to: self.to@, amount: self.amount@ }
    }
}

/// What a withdrawal pays: the reward owed, and the stake taken out.
#[derive(Debug)]
pub struct Withdrawal {
    pub reward: Transfer,
    pub principal: Transfer,
}

} // verus!
