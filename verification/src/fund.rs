//! The reservoir that holds the reward asset and pays it out on request.
//!
//! Like the ledger, the reservoir moves nothing itself: it decides whether a
//! request is granted, and returns the payment for its caller to make.

use vstd::prelude::*;
use crate::bignat::BigNat;
use crate::identity::{valid_esdt_identifier, Address, TokenId};
use crate::transfer::{Transfer, TransferView};

verus! {

/// Why the reservoir refused.
#[derive(Debug, Clone, Copy, PartialEq, Eq, Structural)]
pub enum FundError {
    /// The reward asset has no valid name, or the ledger's account is not a
    /// contract.
    InvalidConfiguration,
    /// The caller is not the one who may ask for this.
    Unauthorized,
    /// The amount asked for is zero.
    InvalidAmount,
    /// The amount asked for is more than the reservoir holds.
    InsufficientFunds,
}

/// The reservoir: the asset it holds, and the ledger it pays for.
#[derive(Debug)]
pub struct Fund {
    reward: TokenId,
    chef: Address,
}

/// The reservoir as the model sees it.
pub struct FundView {
    pub reward: Seq<u8>,
    pub chef: Seq<u8>,
}

impl View for Fund {
    type V = FundView;

    closed spec fn view(&self) -> FundView {
        FundView { reward: self.reward@, chef: self.chef@ }
    }
}

/// A reservoir of `reward` for the ledger at `chef`.
pub open spec fn fund_init_spec(reward: Seq<u8>, chef: Seq<u8>, chef_is_contract: bool) -> Result<
    FundView,
    FundError,
> {
    if (reward.len() == 0 || valid_esdt_identifier(reward)) && chef_is_contract {
        Ok(FundView { reward, chef })
    } else {
        Err(FundError::InvalidConfiguration)
    }
}

/// Whether `amount` can be paid out of `balance`, and if not, why.
pub open spec fn payable_spec(amount: nat, balance: nat) -> Result<(), FundError> {
    if amount == 0 {
        Err(FundError::InvalidAmount)
    } else if amount > balance {
        Err(FundError::InsufficientFunds)
    } else {
        Ok(())
    }
}

/// The ledger asks for `amount` to be paid to `to`, while the reservoir
/// holds `balance`.
pub open spec fn fund_transfer_spec(
    fund: FundView,
    caller: Seq<u8>,
    to: Seq<u8>,
    amount: nat,
    balance: nat,
) -> Result<TransferView, FundError> {
    if caller != fund.chef {
        Err(FundError::Unauthorized)
    } else {
        match payable_spec(amount, balance) {
            Ok(_) => Ok(TransferView { token: fund.reward, to, amount }),
            Err(e) => Err(e),
        }
    }
}

/// The owner takes `amount` back, while the reservoir holds `balance`.
pub open spec fn rescue_fund_spec(
    fund: FundView,
    caller_is_owner: bool,
    caller: Seq<u8>,
    amount: nat,
    balance: nat,
) -> Result<TransferView, FundError> {
    if !caller_is_owner {
        Err(FundError::Unauthorized)
    } else {
        match payable_spec(amount, balance) {
            Ok(_) => Ok(TransferView { token: fund.reward, to: caller, amount }),
            Err(e) => Err(e),
        }
    }
}

impl Fund {
    /// A reservoir of `reward` for the ledger at `chef`.
    pub fn init(reward: TokenId, chef: Address, chef_is_smart_contract: bool) -> (r: Result<
        Fund,
        FundError,
    >)
        ensures
            match fund_init_spec(reward@, chef@, chef_is_smart_contract) {
                Ok(s) => r matches Ok(fund) && fund@ == s,
                Err(e) => r matches Err(e2) && e2 == e,
            },
    {
        if !(reward.is_egld() || reward.is_valid_esdt_identifier()) {
            return Err(FundError::InvalidConfiguration);
        }
        if !chef_is_smart_contract {
            return Err(FundError::InvalidConfiguration);
        }
        Ok(Fund { reward, chef })
    }

    /// Whether `amount` can be paid out of `balance`.
    fn check_payable(amount: &BigNat, balance: &BigNat) -> (r: Result<(), FundError>)
        ensures
            r == payable_spec(amount@, balance@),
    {
        if amount.is_zero() {
            Err(FundError::InvalidAmount)
        } else if balance.lt(amount) {
            Err(FundError::InsufficientFunds)
        } else {
            Ok(())
        }
    }

    /// Grants or refuses the request of `caller` to pay `amount` to `to`,
    /// while the reservoir holds `balance`.
    pub fn transfer(&self, caller: &Address, to: Address, amount: BigNat, balance: &BigNat) -> (r:
        Result<Transfer, FundError>)
        ensures
            match fund_transfer_spec(self@, caller@, to@, amount@, balance@) {
                Ok(t) => r matches Ok(paid) && paid@ == t,
                Err(e) => r matches Err(e2) && e2 == e,
            },
    {
        if !caller.equals(&self.chef) {
            return Err(FundError::Unauthorized);
        }
        match Fund::check_payable(&amount, balance) {
            Ok(_) => Ok(Transfer { token: self.reward.clone(), to, amount }),
            Err(e) => Err(e),
        }
    }

    /// Grants or refuses the owner's request to take `amount` back, while the
    /// reservoir holds `balance`.
    pub fn rescue_fund(
        &self,
        caller_is_owner: bool,
        caller: Address,
        amount: BigNat,
        balance: &BigNat,
    ) -> (r: Result<Transfer, FundError>)
        ensures
            match rescue_fund_spec(self@, caller_is_owner, caller@, amount@, balance@) {
                Ok(t) => r matches Ok(paid) && paid@ == t,
                Err(e) => r matches Err(e2) && e2 == e,
            },
    {
        if !caller_is_owner {
            return Err(FundError::Unauthorized);
        }
        match Fund::check_payable(&amount, balance) {
            Ok(_) => Ok(Transfer { token: self.reward.clone(), to: caller, amount }),
            Err(e) => Err(e),
        }
    }

    /// The asset that the reservoir holds.
    pub fn get_reward(&self) -> (r: TokenId)
        ensures
            r@ == self@.reward,
    {
        self.reward.clone()
    }

    /// The ledger that the reservoir pays for.
    pub fn get_chef(&self) -> (r: Address)
        ensures
            r@ == self@.chef,
    {
        self.chef.clone()
    }
}

} // verus!
