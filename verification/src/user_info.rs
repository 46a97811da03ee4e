//! One user's position in one pool.

use vstd::prelude::*;
use crate::accrual::{accumulated, accumulated_spec};
use crate::bignat::BigNat;

verus! {

/// A position: the stake, and the reward already accounted for at the last
/// settlement.
#[derive(Debug)]
pub struct UserInfo {
    pub amount: BigNat,
    pub reward_debt: BigNat,
}

/// A position as the model sees it.
pub struct UserView {
    pub amount: nat,
    pub reward_debt: nat,
}

impl View for UserInfo {
    type V = UserView;

    open spec fn view(&self) -> UserView {
        UserView { amount: self.amount@, reward_debt: self.reward_debt@ }
    }
}

impl Clone for UserInfo {
    fn clone(&self) -> (r: Self)
        ensures
            r@ == self@,
    {
        UserInfo { amount: self.amount.clone(), reward_debt: self.reward_debt.clone() }
    }
}

/// The position of someone who never staked.
pub open spec fn empty_position() -> UserView {
    UserView { amount: 0, reward_debt: 0 }
}

/// The reward owed to a position under accumulator `acc`: what its stake has
/// accumulated, less what was already accounted for. It is negative where
/// the debt is ahead of the accumulated reward.
pub open spec fn pending_spec(user: UserView, acc: nat) -> int {
    accumulated_spec(user.amount, acc) - user.reward_debt
}

/// The position after its reward under `acc` was settled.
pub open spec fn settled_position(user: UserView, acc: nat) -> UserView {
    UserView { reward_debt: accumulated_spec(user.amount, acc), ..user }
}

impl UserInfo {
    /// The position of someone who never staked.
    pub fn new() -> (r: UserInfo)
        ensures
            r@ == empty_position(),
    {
        UserInfo { amount: BigNat::zero(), reward_debt: BigNat::zero() }
    }

    /// The reward owed under accumulator `acc`, or `None` where the debt is
    /// ahead of the accumulated reward.
    pub fn pending(&self, acc: &BigNat) -> (r: Option<BigNat>)
        ensures
            r.is_some() == (pending_spec(self@, acc@) >= 0),
            r matches Some(p) ==> p@ == pending_spec(self@, acc@),
    {
        let total = accumulated(&self.amount, acc);
        total.checked_sub(&self.reward_debt)
    }

    /// Settles the position under accumulator `acc`: returns the reward owed
    /// and moves the debt up to the accumulated reward. Where the debt is
    /// ahead, returns `None` and leaves the position as it is.
    pub fn settle_user(&mut self, acc: &BigNat) -> (r: Option<BigNat>)
        ensures
            r.is_some() == (pending_spec(old(self)@, acc@) >= 0),
            r matches Some(p) ==> p@ == pending_spec(old(self)@, acc@) && final(self)@
                == settled_position(old(self)@, acc@),
            r.is_none() ==> final(self)@ == old(self)@,
    {
        let total = accumulated(&self.amount, acc);
        let owed = total.checked_sub(&self.reward_debt);
        if owed.is_some() {
            self.reward_debt = total;
        }
        owed
    }
}

} // verus!
