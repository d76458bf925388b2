//! The accrual engine: the pool-wide state and how elapsed time turns into
//! reward per unit of stake.

use crate::amount::Amount;
use vstd::prelude::*;

verus! {

/// The reward that the pool accrues in each second, shared among all stake.
pub const REWARD_PER_SECOND: u64 = 300;

/// The pool-wide state as numbers.
pub struct PoolModel {
    /// The sum of all balances at stake.
    pub total_staked: nat,
    /// The reward earned so far by one unit of stake held since the pool began.
    pub acc_reward_per_share: nat,
    /// The second up to which reward has been accrued.
    pub last_reward_time: nat,
}

impl PoolModel {
    /// The pool at its creation in second `now`: nothing staked, nothing
    /// accrued.
    pub open spec fn genesis(now: nat) -> PoolModel {
        PoolModel { total_staked: 0, acc_reward_per_share: 0, last_reward_time: now }
    }

    /// What `elapsed` seconds add to the reward per share while `total_staked`
    /// is at stake: the reward of those seconds divided by the stake, rounded
    /// down.
    pub open spec fn accrual(elapsed: nat, total_staked: nat) -> nat
        recommends
            total_staked > 0,
    {
        (elapsed * REWARD_PER_SECOND as nat) / total_staked
    }

    /// The pool brought up to second `now`.
    ///
    /// A clock that has not advanced changes nothing. Time that passes while
    /// nothing is staked is skipped: the clock moves and nothing accrues.
    /// Otherwise the seconds since the last accrual are paid for at the stake
    /// that was held during them.
    pub open spec fn synced(self, now: nat) -> PoolModel {
        if now <= self.last_reward_time {
            self
        } else if self.total_staked == 0 {
            PoolModel { last_reward_time: now, ..self }
        } else {
            PoolModel {
                acc_reward_per_share: self.acc_reward_per_share + Self::accrual(
                    (now - self.last_reward_time) as nat,
                    self.total_staked,
                ),
                last_reward_time: now,
                ..self
            }
        }
    }
}

/// The pool-wide state.
#[derive(Debug)]
pub struct PoolState {
    /// The sum of all balances at stake.
    pub total_staked: Amount,
    /// The reward earned so far by one unit of stake held since the pool began.
    pub acc_reward_per_share: Amount,
    /// The second up to which reward has been accrued.
    pub last_reward_time: u64,
}

impl View for PoolState {
    type V = PoolModel;

    open spec fn view(&self) -> PoolModel {
        PoolModel {
            total_staked: self.total_staked@,
            acc_reward_per_share: self.acc_reward_per_share@,
            last_reward_time: self.last_reward_time as nat,
        }
    }
}

impl Clone for PoolState {
    fn clone(&self) -> (r: PoolState)
        ensures
            r@ == self@,
    {
        PoolState {
            total_staked: self.total_staked.clone(),
            acc_reward_per_share: self.acc_reward_per_share.clone(),
            last_reward_time: self.last_reward_time,
        }
    }
}

impl PoolState {
    /// The pool at its creation in second `now`.
    pub fn new(now: u64) -> (r: PoolState)
        ensures
            r@ == PoolModel::genesis(now as nat),
    {
        PoolState {
            total_staked: Amount::zero(),
            acc_reward_per_share: Amount::zero(),
            last_reward_time: now,
        }
    }

    /// Brings the pool up to second `now`.
    pub fn update_pool(&mut self, now: u64)
        ensures
            final(self)@ == old(self)@.synced(now as nat),
    {
        if now <= self.last_reward_time {
            return;
        }
        if self.total_staked.is_zero() {
            self.last_reward_time = now;
            return;
        }
        let elapsed: u64 = now - self.last_reward_time;
        let reward: u128 = elapsed as u128 * REWARD_PER_SECOND as u128;
        let accrued: u128 = match self.total_staked.to_u128() {
            Some(total) => reward / total,
            None => {
                proof {
                    let total = self.total_staked@;
                    assert(reward as nat / total == 0) by (nonlinear_arith)
                        requires
                            reward < total,
                    ;
                }
                0
            },
        };
        self.acc_reward_per_share = self.acc_reward_per_share.add(&Amount::from_u128(accrued));
        self.last_reward_time = now;
    }
}

} // verus!
