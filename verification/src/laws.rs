//! What holds of a staking pool whatever is done to it, and in whatever
//! order.

use crate::address::Address;
use crate::contract::{
    lemma_claim_rewards_keeps_wf, lemma_position_is_backed, lemma_stake_keeps_wf,
    lemma_synced_keeps_wf, lemma_unstake_keeps_wf, staked_sum, ContractModel,
};
use crate::error::StakingError;
use crate::pool::{PoolModel, REWARD_PER_SECOND};
use crate::stake::{
    claim_outcome, deposit_outcome, lemma_sync_keeps_backing, withdraw_outcome, SettlementModel,
    StakeModel,
};
use vstd::prelude::*;

verus! {

/// One operation on the pool, with everything that it is given.
pub enum Operation {
    /// An account deposits a payment.
    Stake { who: Address, payment: nat, now: nat },
    /// An account withdraws its balance.
    Unstake { who: Address, now: nat },
    /// An account claims its pending reward.
    ClaimRewards { who: Address, now: nat },
    /// The pool's balance is topped up.
    Fund { payment: nat },
    /// The pool is brought up to date.
    UpdatePool { now: nat },
    /// An amount is paid to an account out of the pool's balance.
    SendRewards { to: Address, amount: nat },
}

impl ContractModel {
    /// The pool after an operation. A rejected operation leaves it as it was.
    pub open spec fn after(self, op: Operation) -> ContractModel {
        match op {
            Operation::Stake { who, payment, now } => match self.stake(who, payment, now) {
                Ok(next) => next.0,
                Err(_) => self,
            },
            Operation::Unstake { who, now } => match self.unstake(who, now) {
                Ok(next) => next.0,
                Err(_) => self,
            },
            Operation::ClaimRewards { who, now } => match self.claim_rewards(who, now) {
                Ok(next) => next.0,
                Err(_) => self,
            },
            Operation::Fund { payment } => self.funded(payment),
            Operation::UpdatePool { now } => self.synced(now),
            Operation::SendRewards { to, amount } => match self.send_rewards(to, amount) {
                Ok(next) => next.0,
                Err(_) => self,
            },
        }
    }

    /// The pool after a sequence of operations, the first one first.
    pub open spec fn after_all(self, ops: Seq<Operation>) -> ContractModel
        decreases ops.len(),
    {
        if ops.len() == 0 {
            self
        } else {
            self.after_all(ops.drop_last()).after(ops.last())
        }
    }
}

/// A pool is valid at its creation.
pub proof fn genesis_is_valid(now: nat)
    ensures
        ContractModel::genesis(now).wf(),
{
}

/// No operation, carried out or rejected, makes a valid pool invalid.
pub proof fn validity_is_kept(m: ContractModel, op: Operation)
    requires
        m.wf(),
    ensures
        m.after(op).wf(),
{
    match op {
        Operation::Stake { who, payment, now } => lemma_stake_keeps_wf(m, who, payment, now),
        Operation::Unstake { who, now } => lemma_unstake_keeps_wf(m, who, now),
        Operation::ClaimRewards { who, now } => lemma_claim_rewards_keeps_wf(m, who, now),
        Operation::Fund { payment } => {},
        Operation::UpdatePool { now } => lemma_synced_keeps_wf(m, now),
        Operation::SendRewards { to, amount } => {},
    }
}

/// After any sequence of operations on a valid pool, the pool's total is the
/// sum of the balances that the accounts have at stake.
pub proof fn total_staked_is_sum_of_stakes(m: ContractModel, ops: Seq<Operation>)
    requires
        m.wf(),
    ensures
        m.after_all(ops).wf(),
        m.after_all(ops).pool.total_staked == staked_sum(m.after_all(ops).positions),
    decreases ops.len(),
{
    if ops.len() > 0 {
        total_staked_is_sum_of_stakes(m, ops.drop_last());
        validity_is_kept(m.after_all(ops.drop_last()), ops.last());
    }
}

/// No operation lowers the reward accrued per share, and none turns the
/// pool's clock back.
pub proof fn accumulator_never_decreases_in_one(m: ContractModel, op: Operation)
    ensures
        m.after(op).pool.acc_reward_per_share >= m.pool.acc_reward_per_share,
        m.after(op).pool.last_reward_time >= m.pool.last_reward_time,
{
}

/// Over any sequence of operations the reward accrued per share does not go
/// down, and the pool's clock does not go back.
pub proof fn accumulator_never_decreases(m: ContractModel, ops: Seq<Operation>)
    ensures
        m.after_all(ops).pool.acc_reward_per_share >= m.pool.acc_reward_per_share,
        m.after_all(ops).pool.last_reward_time >= m.pool.last_reward_time,
    decreases ops.len(),
{
    if ops.len() > 0 {
        accumulator_never_decreases(m, ops.drop_last());
        accumulator_never_decreases_in_one(m.after_all(ops.drop_last()), ops.last());
    }
}

/// Bringing the pool up to the same second twice changes nothing the second
/// time.
pub proof fn sync_is_idempotent(pool: PoolModel, now: nat)
    ensures
        pool.synced(now).synced(now) == pool.synced(now),
{
}

/// While nothing is staked nothing accrues: bringing the pool up to date
/// moves its clock and leaves the reward per share as it was.
pub proof fn nothing_accrues_without_stake(pool: PoolModel, now: nat)
    requires
        pool.total_staked == 0,
    ensures
        pool.synced(now).acc_reward_per_share == pool.acc_reward_per_share,
        pool.synced(now).total_staked == 0,
        pool.synced(now).last_reward_time == if now > pool.last_reward_time {
            now
        } else {
            pool.last_reward_time
        },
{
}

/// The time that passes while nothing is staked is not made up for later:
/// what accrues after it is what would have accrued had the pool been
/// created when it ended.
pub proof fn idle_time_is_not_banked(pool: PoolModel, idle_until: nat, now: nat)
    requires
        pool.total_staked == 0,
        pool.last_reward_time <= idle_until,
    ensures
        pool.synced(idle_until).synced(now) == (PoolModel {
            last_reward_time: idle_until,
            ..pool
        }).synced(now),
{
}

/// The pool's clock is never ahead of the latest second that it was brought
/// up to, and never goes back.
pub proof fn clock_follows_time(pool: PoolModel, now: nat)
    ensures
        pool.synced(now).last_reward_time >= pool.last_reward_time,
        pool.synced(now).last_reward_time == now || pool.synced(now).last_reward_time
            == pool.last_reward_time,
        pool.last_reward_time <= now ==> pool.synced(now).last_reward_time == now,
{
}

/// In a valid pool no account is owed a negative reward, now or at any
/// later second.
pub proof fn pending_is_never_negative(m: ContractModel, who: Address, now: nat)
    requires
        m.wf(),
    ensures
        m.position(who).pending(m.pool.acc_reward_per_share) >= 0,
        m.position(who).pending(m.pool.synced(now).acc_reward_per_share) >= 0,
{
    lemma_position_is_backed(m, who);
    lemma_sync_keeps_backing(m.pool, m.position(who), now);
}

/// In a valid pool an account with nothing at stake has been paid nothing
/// that is not settled: its reward debt is zero.
pub proof fn empty_stake_owes_nothing(m: ContractModel, who: Address)
    requires
        m.wf(),
        m.position(who).amount == 0,
    ensures
        m.position(who).reward_debt == 0,
{
    lemma_position_is_backed(m, who);
    assert(0 * m.pool.acc_reward_per_share == 0) by (nonlinear_arith);
}

/// Rounding only ever loses reward: what a stretch of time adds per share,
/// taken over the whole stake, is at most the reward of that time, and falls
/// short of it by less than one unit per share.
pub proof fn accrual_rounds_down(elapsed: nat, total_staked: nat)
    requires
        total_staked > 0,
    ensures
        PoolModel::accrual(elapsed, total_staked) * total_staked <= elapsed * REWARD_PER_SECOND,
        elapsed * REWARD_PER_SECOND < (PoolModel::accrual(elapsed, total_staked) + 1)
            * total_staked,
{
    let reward = elapsed * REWARD_PER_SECOND as nat;
    let q = reward / total_staked;
    assert(q * total_staked <= reward < (q + 1) * total_staked) by (nonlinear_arith)
        requires
            q == reward / total_staked,
            total_staked > 0,
    ;
}

/// Bringing the pool up to date in between never adds reward: two steps
/// accrue at most what one step over the same time accrues, and less than
/// one unit per share is lost by the extra rounding.
pub proof fn accruing_in_steps_never_adds(pool: PoolModel, between: nat, now: nat)
    requires
        pool.last_reward_time <= between <= now,
    ensures
        pool.synced(between).synced(now).acc_reward_per_share <= pool.synced(
            now,
        ).acc_reward_per_share,
        pool.synced(now).acc_reward_per_share <= pool.synced(between).synced(
            now,
        ).acc_reward_per_share + 1,
        pool.synced(between).synced(now).last_reward_time == pool.synced(now).last_reward_time,
{
    if pool.total_staked > 0 {
        let d = pool.total_staked;
        let r = REWARD_PER_SECOND as nat;
        let a = ((between - pool.last_reward_time) * r) as nat;
        let b = ((now - between) * r) as nat;
        let whole = ((now - pool.last_reward_time) * r) as nat;
        assert(whole == a + b) by (nonlinear_arith)
            requires
                whole == (now - pool.last_reward_time) * r,
                a == (between - pool.last_reward_time) * r,
                b == (now - between) * r,
        ;
        assert(a / d + b / d <= (a + b) / d <= a / d + b / d + 1) by (nonlinear_arith)
            requires
                d > 0,
        ;
    }
}

/// An account-level operation on a stake that the pool can hold leaves a
/// stake that the pool it leaves can hold.
pub proof fn settlement_is_backed(pool: PoolModel, stake: StakeModel, payment: nat, now: nat)
    requires
        stake.backed_by(pool),
    ensures
        deposit_outcome(pool, stake, payment, now) matches Ok(s) ==> s.stake.backed_by(s.pool),
        withdraw_outcome(pool, stake, now) matches Ok(s) ==> s.stake.backed_by(s.pool),
        claim_outcome(pool, stake, now) matches Ok(s) ==> s.stake.backed_by(s.pool),
{
    lemma_sync_keeps_backing(pool, stake, now);
    assert(0 * pool.synced(now).acc_reward_per_share == 0) by (nonlinear_arith);
}

/// A claim pays once: right after it nothing is pending, and a second claim
/// in the same second is rejected.
pub proof fn claim_pays_once(pool: PoolModel, stake: StakeModel, now: nat)
    ensures
        claim_outcome(pool, stake, now) matches Ok(s) ==> {
            &&& s.stake.pending(s.pool.acc_reward_per_share) == 0
            &&& claim_outcome(s.pool, s.stake, now) == Err::<SettlementModel, StakingError>(
                StakingError::NothingToClaim,
            )
        },
{
}

/// A deposit settles the account: right after it nothing is pending.
pub proof fn deposit_settles(pool: PoolModel, stake: StakeModel, payment: nat, now: nat)
    ensures
        deposit_outcome(pool, stake, payment, now) matches Ok(s) ==> s.stake.pending(
            s.pool.acc_reward_per_share,
        ) == 0,
{
}

/// What a stake earns from one settlement to a later second is its balance
/// times what the reward per share has grown by since.
pub proof fn pending_is_balance_times_growth(stake: StakeModel, settled_at: nat, acc: nat)
    requires
        settled_at <= acc,
    ensures
        stake.settled(settled_at).pending(acc) == stake.amount * (acc - settled_at),
{
    let a = stake.amount;
    assert(a * acc - a * settled_at == a * (acc - settled_at)) by (nonlinear_arith);
}

} // verus!
