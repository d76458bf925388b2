//! The stake of one account, and the three account-level operations as
//! functions from the state before to the state after and what is paid out.

use crate::amount::Amount;
use crate::error::StakingError;
use crate::pool::{PoolModel, PoolState};
use vstd::prelude::*;
use vstd::std_specs::cmp::PartialEqSpecImpl;

verus! {

/// The stake of one account as numbers.
pub struct StakeModel {
    /// The balance that the account has at stake.
    pub amount: nat,
    /// What the balance had earned per the accumulator when the account was
    /// last settled: rewards up to there are paid.
    pub reward_debt: nat,
}

impl StakeModel {
    /// The stake of an account that has nothing at stake.
    pub open spec fn empty() -> StakeModel {
        StakeModel { amount: 0, reward_debt: 0 }
    }

    /// The reward that is owed to the account at the accumulator `acc`: what
    /// its balance has earned since the pool began, less what is paid.
    pub open spec fn pending(self, acc: nat) -> int {
        self.amount * acc - self.reward_debt
    }

    /// The stake with the same balance and nothing owed at accumulator `acc`.
    pub open spec fn settled(self, acc: nat) -> StakeModel {
        StakeModel { amount: self.amount, reward_debt: self.amount * acc }
    }

    /// The stake is one that this pool can hold: its balance is part of the
    /// pool's total, and it has not been paid more than it has earned.
    pub open spec fn backed_by(self, pool: PoolModel) -> bool {
        &&& self.amount <= pool.total_staked
        &&& self.reward_debt <= self.amount * pool.acc_reward_per_share
    }
}

/// The stake of one account.
#[derive(Debug)]
pub struct Stake {
    /// The balance that the account has at stake.
    pub amount: Amount,
    /// What the balance had earned per the accumulator when the account was
    /// last settled.
    pub reward_debt: Amount,
}

impl View for Stake {
    type V = StakeModel;

    open spec fn view(&self) -> StakeModel {
        StakeModel { amount: self.amount@, reward_debt: self.reward_debt@ }
    }
}

impl Default for Stake {
    /// The stake of an account that has nothing at stake.
    fn default() -> (r: Stake)
        ensures
            r@ == StakeModel::empty(),
    {
        Stake { amount: Amount::zero(), reward_debt: Amount::zero() }
    }
}

impl Clone for Stake {
    fn clone(&self) -> (r: Stake)
        ensures
            r@ == self@,
    {
        Stake { amount: self.amount.clone(), reward_debt: self.reward_debt.clone() }
    }
}

impl PartialEq for Stake {
    fn eq(&self, other: &Stake) -> (r: bool) {
        self.amount == other.amount && self.reward_debt == other.reward_debt
    }
}

impl Eq for Stake {

}

impl PartialEqSpecImpl for Stake {
    open spec fn obeys_eq_spec() -> bool {
        true
    }

    open spec fn eq_spec(&self, other: &Stake) -> bool {
        self@ == other@
    }
}

impl Stake {
    /// Whether the stake is one that the pool can hold.
    pub fn is_backed_by(&self, pool: &PoolState) -> (r: bool)
        ensures
            r == self@.backed_by(pool@),
    {
        self.amount.le(&pool.total_staked) && self.reward_debt.le(
            &self.amount.mul(&pool.acc_reward_per_share),
        )
    }

    /// The reward that is owed to the account at the accumulator `acc`.
    pub fn pending_reward(&self, acc: &Amount) -> (r: Amount)
        requires
            self@.reward_debt <= self@.amount * acc@,
        ensures
            r@ == self@.pending(acc@),
    {
        self.amount.mul(acc).sub(&self.reward_debt)
    }
}

/// The number behind an amount that may be absent.
pub open spec fn amount_view(x: Option<Amount>) -> Option<nat> {
    match x {
        Some(a) => Some(a@),
        None => None,
    }
}

/// The transfer that an amount owed calls for: none where nothing is owed.
pub open spec fn due(owed: int) -> Option<nat> {
    if owed > 0 {
        Some(owed as nat)
    } else {
        None
    }
}

/// The transfer that an amount owed calls for: none where nothing is owed.
pub fn transfer_for(owed: Amount) -> (r: Option<Amount>)
    ensures
        amount_view(r) == due(owed@ as int),
{
    if owed.is_zero() {
        None
    } else {
        Some(owed)
    }
}

/// What an account-level operation comes to: the state of pool and account
/// after it, and what it pays to the account.
pub struct SettlementModel {
    /// The pool after the operation.
    pub pool: PoolModel,
    /// The stake of the account after the operation.
    pub stake: StakeModel,
    /// The reward paid, if any reward is.
    pub reward: Option<nat>,
    /// The balance returned, if any is.
    pub principal: Option<nat>,
}

impl SettlementModel {
    /// The sum of what is paid.
    pub open spec fn paid(self) -> nat {
        (match self.reward {
            Some(x) => x,
            None => 0,
        }) + (match self.principal {
            Some(x) => x,
            None => 0,
        })
    }
}

/// What an account-level operation comes to: the state of pool and account
/// after it, and what it pays to the account. A part of the payment that is
/// `None` is not transferred at all.
#[derive(Debug)]
pub struct Settlement {
    /// The pool after the operation.
    pub pool: PoolState,
    /// The stake of the account after the operation.
    pub stake: Stake,
    /// The reward to transfer, if any.
    pub reward: Option<Amount>,
    /// The balance to return, if any.
    pub principal: Option<Amount>,
}

impl View for Settlement {
    type V = SettlementModel;

    open spec fn view(&self) -> SettlementModel {
        SettlementModel {
            pool: self.pool@,
            stake: self.stake@,
            reward: amount_view(self.reward),
            principal: amount_view(self.principal),
        }
    }
}

impl Settlement {
    /// The sum of what is paid.
    pub fn paid(&self) -> (r: Amount)
        ensures
            r@ == self@.paid(),
    {
        let reward = match &self.reward {
            Some(x) => x.clone(),
            None => Amount::zero(),
        };
        match &self.principal {
            Some(x) => reward.add(x),
            None => reward,
        }
    }
}

/// A deposit of `payment` in second `now`.
///
/// A deposit of nothing is rejected. Otherwise the pool is brought up to
/// date, the reward pending on the balance held so far is paid, the payment
/// joins the balance and the pool's total, and the account is settled.
pub open spec fn deposit_outcome(
    pool: PoolModel,
    stake: StakeModel,
    payment: nat,
    now: nat,
) -> Result<SettlementModel, StakingError> {
    if payment == 0 {
        Err(StakingError::InvalidAmount)
    } else {
        let synced = pool.synced(now);
        let acc = synced.acc_reward_per_share;
        Ok(
            SettlementModel {
                pool: PoolModel { total_staked: synced.total_staked + payment, ..synced },
                stake: StakeModel {
                    amount: stake.amount + payment,
                    reward_debt: (stake.amount + payment) * acc,
                },
                reward: due(stake.pending(acc)),
                principal: None,
            },
        )
    }
}

/// A withdrawal in second `now`.
///
/// An account with nothing at stake is rejected. Otherwise the pool is
/// brought up to date, the pending reward is paid, and the whole balance
/// leaves the pool's total and is returned.
pub open spec fn withdraw_outcome(pool: PoolModel, stake: StakeModel, now: nat) -> Result<
    SettlementModel,
    StakingError,
> {
    if stake.amount == 0 {
        Err(StakingError::NoStake)
    } else {
        let synced = pool.synced(now);
        let acc = synced.acc_reward_per_share;
        Ok(
            SettlementModel {
                pool: PoolModel {
                    total_staked: (synced.total_staked - stake.amount) as nat,
                    ..synced
                },
                stake: StakeModel::empty(),
                reward: due(stake.pending(acc)),
                principal: Some(stake.amount),
            },
        )
    }
}

/// A claim in second `now`.
///
/// An account with nothing at stake is rejected, and so is one to which,
/// with the pool brought up to date, no reward is owed. Otherwise the pending
/// reward is paid and the account is settled.
pub open spec fn claim_outcome(pool: PoolModel, stake: StakeModel, now: nat) -> Result<
    SettlementModel,
    StakingError,
> {
    let synced = pool.synced(now);
    let acc = synced.acc_reward_per_share;
    if stake.amount == 0 {
        Err(StakingError::NoStake)
    } else if stake.pending(acc) <= 0 {
        Err(StakingError::NothingToClaim)
    } else {
        Ok(
            SettlementModel {
                pool: synced,
                stake: stake.settled(acc),
                reward: due(stake.pending(acc)),
                principal: None,
            },
        )
    }
}

/// The accumulator only grows, so a stake that had not been overpaid before
/// the pool was brought up to date has not been overpaid after.
pub proof fn lemma_sync_keeps_backing(pool: PoolModel, stake: StakeModel, now: nat)
    requires
        stake.backed_by(pool),
    ensures
        stake.backed_by(pool.synced(now)),
        stake.pending(pool.synced(now).acc_reward_per_share) >= stake.pending(
            pool.acc_reward_per_share,
        ) >= 0,
{
    let a = stake.amount;
    let before = pool.acc_reward_per_share;
    let after = pool.synced(now).acc_reward_per_share;
    assert(a * before <= a * after) by (nonlinear_arith)
        requires
            before <= after,
    ;
}

/// Deposits `payment` for an account in second `now`.
pub fn deposit(pool: &PoolState, stake: &Stake, payment: &Amount, now: u64) -> (r: Result<
    Settlement,
    StakingError,
>)
    requires
        stake@.backed_by(pool@),
    ensures
        match r {
            Ok(s) => deposit_outcome(pool@, stake@, payment@, now as nat) == Ok::<
                SettlementModel,
                StakingError,
            >(s@),
            Err(e) => deposit_outcome(pool@, stake@, payment@, now as nat) == Err::<
                SettlementModel,
                StakingError,
            >(e),
        },
{
    if payment.is_zero() {
        return Err(StakingError::InvalidAmount);
    }
    let mut synced = pool.clone();
    synced.update_pool(now);
    proof {
        lemma_sync_keeps_backing(pool@, stake@, now as nat);
    }
    let reward = transfer_for(stake.pending_reward(&synced.acc_reward_per_share));
    let amount = stake.amount.add(payment);
    let reward_debt = amount.mul(&synced.acc_reward_per_share);
    synced.total_staked = synced.total_staked.add(payment);
    Ok(
        Settlement {
            pool: synced,
            stake: Stake { amount, reward_debt },
            reward,
            principal: None,
        },
    )
}

/// Withdraws the whole balance of an account in second `now`.
pub fn withdraw(pool: &PoolState, stake: &Stake, now: u64) -> (r: Result<Settlement, StakingError>)
    requires
        stake@.backed_by(pool@),
    ensures
        match r {
            Ok(s) => withdraw_outcome(pool@, stake@, now as nat) == Ok::<
                SettlementModel,
                StakingError,
            >(s@),
            Err(e) => withdraw_outcome(pool@, stake@, now as nat) == Err::<
                SettlementModel,
                StakingError,
            >(e),
        },
{
    if stake.amount.is_zero() {
        return Err(StakingError::NoStake);
    }
    let mut synced = pool.clone();
    synced.update_pool(now);
    proof {
        lemma_sync_keeps_backing(pool@, stake@, now as nat);
    }
    let reward = transfer_for(stake.pending_reward(&synced.acc_reward_per_share));
    synced.total_staked = synced.total_staked.sub(&stake.amount);
    Ok(
        Settlement {
            pool: synced,
            stake: Stake::default(),
            reward,
            principal: Some(stake.amount.clone()),
        },
    )
}

/// Claims the reward pending for an account in second `now`.
pub fn claim(pool: &PoolState, stake: &Stake, now: u64) -> (r: Result<Settlement, StakingError>)
    requires
        stake@.backed_by(pool@),
    ensures
        match r {
            Ok(s) => claim_outcome(pool@, stake@, now as nat) == Ok::<
                SettlementModel,
                StakingError,
            >(s@),
            Err(e) => claim_outcome(pool@, stake@, now as nat) == Err::<
                SettlementModel,
                StakingError,
            >(e),
        },
{
    if stake.amount.is_zero() {
        return Err(StakingError::NoStake);
    }
    let mut synced = pool.clone();
    synced.update_pool(now);
    proof {
        lemma_sync_keeps_backing(pool@, stake@, now as nat);
    }
    let pending = stake.pending_reward(&synced.acc_reward_per_share);
    if pending.is_zero() {
        return Err(StakingError::NothingToClaim);
    }
    let reward_debt = stake.amount.mul(&synced.acc_reward_per_share);
    Ok(
        Settlement {
            pool: synced,
            stake: Stake { amount: stake.amount.clone(), reward_debt },
            reward: Some(pending),
            principal: None,
        },
    )
}

} // verus!
