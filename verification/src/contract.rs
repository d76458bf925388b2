//! The staking pool as a whole: the pool-wide state, the stake of every
//! account, and the balance that the pool holds to pay from.

use crate::address::Address;
use crate::amount::Amount;
use crate::error::StakingError;
use crate::pool::{PoolModel, PoolState};
use crate::stake::{
    amount_view, claim, claim_outcome, deposit, deposit_outcome, due, lemma_sync_keeps_backing,
    transfer_for, withdraw, withdraw_outcome, Settlement, SettlementModel, Stake, StakeModel,
};
use vstd::prelude::*;

verus! {

/// The stake that the ledger holds for one account, as numbers.
pub struct PositionModel {
    pub who: Address,
    pub stake: StakeModel,
}

/// What an operation pays out of the pool's balance, and to whom.
pub struct PayoutModel {
    /// The account that is paid.
    pub to: Address,
    /// The reward paid, if any reward is.
    pub reward: Option<nat>,
    /// The balance returned, if any is.
    pub principal: Option<nat>,
}

/// What an operation pays out of the pool's balance, and to whom. A part
/// that is `None` is not transferred at all; the reward is transferred before
/// the balance.
#[derive(Debug)]
pub struct Payout {
    /// The account that is paid.
    pub to: Address,
    /// The reward transferred, if any.
    pub reward: Option<Amount>,
    /// The balance returned, if any.
    pub principal: Option<Amount>,
}

impl View for Payout {
    type V = PayoutModel;

    open spec fn view(&self) -> PayoutModel {
        PayoutModel {
            to: self.to,
            reward: amount_view(self.reward),
            principal: amount_view(self.principal),
        }
    }
}

/// The sum of the balances at stake in a list of positions.
pub open spec fn staked_sum(positions: Seq<PositionModel>) -> nat
    decreases positions.len(),
{
    if positions.len() == 0 {
        0
    } else {
        staked_sum(positions.drop_last()) + positions.last().stake.amount
    }
}

/// The staking pool as numbers.
pub struct ContractModel {
    /// The pool-wide state.
    pub pool: PoolModel,
    /// One position for each account that ever deposited, in the order of
    /// their first deposits.
    pub positions: Seq<PositionModel>,
    /// What the pool holds: every payment received, less every payment made.
    pub balance: nat,
}

impl ContractModel {
    /// The pool at its creation in second `now`: no positions, no balance.
    pub open spec fn genesis(now: nat) -> ContractModel {
        ContractModel { pool: PoolModel::genesis(now), positions: Seq::empty(), balance: 0 }
    }

    /// Whether the ledger holds a position for the account.
    pub open spec fn knows(self, who: Address) -> bool {
        exists|i: int| 0 <= i < self.positions.len() && self.positions[i].who == who
    }

    /// Where the ledger holds the position of an account that it knows.
    pub open spec fn slot(self, who: Address) -> int {
        choose|i: int| 0 <= i < self.positions.len() && self.positions[i].who == who
    }

    /// The stake of an account; an account that the ledger does not know has
    /// nothing at stake.
    pub open spec fn position(self, who: Address) -> StakeModel {
        if self.knows(who) {
            self.positions[self.slot(who)].stake
        } else {
            StakeModel::empty()
        }
    }

    /// The positions once `stake` is written down for the account: in its
    /// place where the ledger knows the account, at the end where it does not.
    pub open spec fn recorded(self, who: Address, stake: StakeModel) -> Seq<PositionModel> {
        if self.knows(who) {
            self.positions.update(self.slot(who), PositionModel { who, stake })
        } else {
            self.positions.push(PositionModel { who, stake })
        }
    }

    /// What holds of the pool at all times: no account has two positions, the
    /// pool's total is the sum of the balances at stake, and no account has
    /// been paid more than its balance has earned.
    pub open spec fn wf(self) -> bool {
        &&& forall|i: int, j: int|
            0 <= i < j < self.positions.len() ==> self.positions[i].who != self.positions[j].who
        &&& self.pool.total_staked == staked_sum(self.positions)
        &&& forall|i: int|
            0 <= i < self.positions.len() ==> (#[trigger] self.positions[i]).stake.reward_debt
                <= self.positions[i].stake.amount * self.pool.acc_reward_per_share
    }

    /// The pool after an account-level operation of `who` that came out as
    /// `outcome`, with `received` paid in along with it.
    ///
    /// What the account-level operation rejects is rejected. What it pays
    /// must be covered by the balance together with what was paid in, or the
    /// operation is rejected for that. Otherwise the new pool state and the
    /// new stake are written down and the payout leaves the balance.
    pub open spec fn concluded(
        self,
        who: Address,
        outcome: Result<SettlementModel, StakingError>,
        received: nat,
    ) -> Result<(ContractModel, PayoutModel), StakingError> {
        match outcome {
            Err(e) => Err(e),
            Ok(s) => if self.balance + received < s.paid() {
                Err(StakingError::TransferFailure)
            } else {
                Ok(
                    (
                        ContractModel {
                            pool: s.pool,
                            positions: self.recorded(who, s.stake),
                            balance: (self.balance + received - s.paid()) as nat,
                        },
                        PayoutModel { to: who, reward: s.reward, principal: s.principal },
                    ),
                )
            },
        }
    }

    /// `who` deposits `payment` in second `now`.
    pub open spec fn stake(self, who: Address, payment: nat, now: nat) -> Result<
        (ContractModel, PayoutModel),
        StakingError,
    > {
        self.concluded(who, deposit_outcome(self.pool, self.position(who), payment, now), payment)
    }

    /// `who` withdraws its whole balance in second `now`.
    pub open spec fn unstake(self, who: Address, now: nat) -> Result<
        (ContractModel, PayoutModel),
        StakingError,
    > {
        self.concluded(who, withdraw_outcome(self.pool, self.position(who), now), 0)
    }

    /// `who` claims its pending reward in second `now`.
    pub open spec fn claim_rewards(self, who: Address, now: nat) -> Result<
        (ContractModel, PayoutModel),
        StakingError,
    > {
        self.concluded(who, claim_outcome(self.pool, self.position(who), now), 0)
    }

    /// The pool's balance is topped up by `payment`.
    pub open spec fn funded(self, payment: nat) -> ContractModel {
        ContractModel { balance: self.balance + payment, ..self }
    }

    /// The pool is brought up to second `now`.
    pub open spec fn synced(self, now: nat) -> ContractModel {
        ContractModel { pool: self.pool.synced(now), ..self }
    }

    /// `amount` is paid to `to` out of the pool's balance as a reward:
    /// nothing is transferred where the amount is zero, and an amount above
    /// the balance is rejected.
    pub open spec fn send_rewards(self, to: Address, amount: nat) -> Result<
        (ContractModel, PayoutModel),
        StakingError,
    > {
        if self.balance < amount {
            Err(StakingError::TransferFailure)
        } else {
            Ok(
                (
                    ContractModel { balance: (self.balance - amount) as nat, ..self },
                    PayoutModel { to, reward: due(amount as int), principal: None },
                ),
            )
        }
    }
}

/// No balance at stake is above the sum of them all.
pub proof fn lemma_sum_bounds_each(positions: Seq<PositionModel>, i: int)
    requires
        0 <= i < positions.len(),
    ensures
        positions[i].stake.amount <= staked_sum(positions),
    decreases positions.len(),
{
    if i < positions.len() - 1 {
        lemma_sum_bounds_each(positions.drop_last(), i);
    }
}

/// Replacing one position moves the sum by the change in that balance.
pub proof fn lemma_sum_update(positions: Seq<PositionModel>, i: int, p: PositionModel)
    requires
        0 <= i < positions.len(),
    ensures
        staked_sum(positions.update(i, p)) + positions[i].stake.amount == staked_sum(positions)
            + p.stake.amount,
    decreases positions.len(),
{
    let after = positions.update(i, p);
    if i < positions.len() - 1 {
        lemma_sum_update(positions.drop_last(), i, p);
        assert(after.drop_last() =~= positions.drop_last().update(i, p));
    } else {
        assert(after.drop_last() =~= positions.drop_last());
    }
}

/// A new position adds its balance to the sum.
pub proof fn lemma_sum_push(positions: Seq<PositionModel>, p: PositionModel)
    ensures
        staked_sum(positions.push(p)) == staked_sum(positions) + p.stake.amount,
{
    assert(positions.push(p).drop_last() =~= positions);
}

/// In a valid pool the stake of every account is one that the pool can hold.
pub proof fn lemma_position_is_backed(m: ContractModel, who: Address)
    requires
        m.wf(),
    ensures
        m.position(who).backed_by(m.pool),
{
    if m.knows(who) {
        lemma_sum_bounds_each(m.positions, m.slot(who));
    } else {
        assert(0 * m.pool.acc_reward_per_share == 0) by (nonlinear_arith);
    }
}

/// Writing down, for one account, a stake that is settled at the new
/// accumulator keeps the pool valid, provided that the new total accounts for
/// the change in that balance and the accumulator has not gone down.
pub proof fn lemma_recorded_keeps_wf(
    m: ContractModel,
    who: Address,
    stake: StakeModel,
    pool: PoolModel,
    balance: nat,
)
    requires
        m.wf(),
        pool.acc_reward_per_share >= m.pool.acc_reward_per_share,
        stake.reward_debt <= stake.amount * pool.acc_reward_per_share,
        pool.total_staked + m.position(who).amount == m.pool.total_staked + stake.amount,
    ensures
        (ContractModel { pool, positions: m.recorded(who, stake), balance }).wf(),
{
    let n = ContractModel { pool, positions: m.recorded(who, stake), balance };
    let p = PositionModel { who, stake };
    if m.knows(who) {
        lemma_sum_update(m.positions, m.slot(who), p);
    } else {
        lemma_sum_push(m.positions, p);
    }
    assert forall|i: int| 0 <= i < n.positions.len() implies (#[trigger] n.positions[i]).stake.reward_debt
        <= n.positions[i].stake.amount * n.pool.acc_reward_per_share by {
        if n.positions[i] != p {
            assert(n.positions[i] == m.positions[i]);
            let a = m.positions[i].stake.amount;
            let before = m.pool.acc_reward_per_share;
            let after = pool.acc_reward_per_share;
            assert(a * before <= a * after) by (nonlinear_arith)
                requires
                    before <= after,
            ;
        }
    }
}

/// A deposit that is carried out leaves a valid pool valid.
pub proof fn lemma_stake_keeps_wf(m: ContractModel, who: Address, payment: nat, now: nat)
    requires
        m.wf(),
    ensures
        m.stake(who, payment, now) matches Ok(next) ==> next.0.wf(),
{
    if let Ok(next) = m.stake(who, payment, now) {
        let s = deposit_outcome(m.pool, m.position(who), payment, now)->Ok_0;
        lemma_recorded_keeps_wf(m, who, s.stake, s.pool, next.0.balance);
    }
}

/// A withdrawal that is carried out leaves a valid pool valid.
pub proof fn lemma_unstake_keeps_wf(m: ContractModel, who: Address, now: nat)
    requires
        m.wf(),
    ensures
        m.unstake(who, now) matches Ok(next) ==> next.0.wf(),
{
    if let Ok(next) = m.unstake(who, now) {
        let s = withdraw_outcome(m.pool, m.position(who), now)->Ok_0;
        lemma_position_is_backed(m, who);
        assert(0 * s.pool.acc_reward_per_share == 0) by (nonlinear_arith);
        lemma_recorded_keeps_wf(m, who, s.stake, s.pool, next.0.balance);
    }
}

/// A claim that is carried out leaves a valid pool valid.
pub proof fn lemma_claim_rewards_keeps_wf(m: ContractModel, who: Address, now: nat)
    requires
        m.wf(),
    ensures
        m.claim_rewards(who, now) matches Ok(next) ==> next.0.wf(),
{
    if let Ok(next) = m.claim_rewards(who, now) {
        let s = claim_outcome(m.pool, m.position(who), now)->Ok_0;
        lemma_recorded_keeps_wf(m, who, s.stake, s.pool, next.0.balance);
    }
}

/// Bringing a valid pool up to date leaves it valid.
pub proof fn lemma_synced_keeps_wf(m: ContractModel, now: nat)
    requires
        m.wf(),
    ensures
        m.synced(now).wf(),
{
    let n = m.synced(now);
    assert forall|i: int| 0 <= i < n.positions.len() implies (#[trigger] n.positions[i]).stake.reward_debt
        <= n.positions[i].stake.amount * n.pool.acc_reward_per_share by {
        let a = m.positions[i].stake.amount;
        let before = m.pool.acc_reward_per_share;
        let after = n.pool.acc_reward_per_share;
        assert(a * before <= a * after) by (nonlinear_arith)
            requires
                before <= after,
        ;
    }
}

/// The stake that the ledger holds for one account.
#[derive(Debug)]
struct Position {
    who: Address,
    stake: Stake,
}

impl View for Position {
    type V = PositionModel;

    closed spec fn view(&self) -> PositionModel {
        PositionModel { who: self.who, stake: self.stake@ }
    }
}

/// A staking pool: the pool-wide state, the stake of every account, and the
/// balance that the pool holds.
///
/// Every operation is atomic: it is carried out in full and reports what it
/// paid, or it is rejected and changes nothing.
#[derive(Debug)]
pub struct StakingContract {
    pool: PoolState,
    positions: Vec<Position>,
    balance: Amount,
}

impl View for StakingContract {
    type V = ContractModel;

    closed spec fn view(&self) -> ContractModel {
        ContractModel {
            pool: self.pool@,
            positions: Seq::new(self.positions@.len(), |i: int| self.positions@[i]@),
            balance: self.balance@,
        }
    }
}

impl StakingContract {
    /// A pool created in second `now`: nothing staked, nothing accrued,
    /// nothing held.
    pub fn init(now: u64) -> (r: StakingContract)
        ensures
            r@ == ContractModel::genesis(now as nat),
            r@.wf(),
    {
        let r = StakingContract {
            pool: PoolState::new(now),
            positions: Vec::new(),
            balance: Amount::zero(),
        };
        proof {
            assert(r@.positions =~= Seq::empty());
        }
        r
    }

    /// Where the ledger holds the position of `who`, and the stake found
    /// there; an unknown account has nothing at stake.
    fn lookup(&self, who: &Address) -> (r: (Option<usize>, Stake))
        requires
            self@.wf(),
        ensures
            r.1@ == self@.position(*who),
            match r.0 {
                Some(i) => self@.knows(*who) && self@.slot(*who) == i,
                None => !self@.knows(*who),
            },
    {
        let mut i: usize = 0;
        while i < self.positions.len()
            invariant
                self@.wf(),
                i <= self.positions@.len(),
                forall|k: int| 0 <= k < i ==> self@.positions[k].who != *who,
            decreases self.positions@.len() - i,
        {
            if self.positions[i].who == *who {
                proof {
                    assert(self@.positions[i as int].who == *who);
                    let j = self@.slot(*who);
                    assert(j == i) by {
                        if j < i {
                            assert(self@.positions[j].who != self@.positions[i as int].who);
                        } else if i < j {
                            assert(self@.positions[i as int].who != self@.positions[j].who);
                        }
                    }
                }
                return (Some(i), self.positions[i].stake.clone());
            }
            i += 1;
        }
        (None, Stake::default())
    }

    /// Carries out what an account-level operation of `who` came to.
    fn conclude(
        &mut self,
        who: &Address,
        slot: Option<usize>,
        settled: Settlement,
        received: &Amount,
    ) -> (r: Result<Payout, StakingError>)
        requires
            match slot {
                Some(i) => old(self)@.knows(*who) && old(self)@.slot(*who) == i,
                None => !old(self)@.knows(*who),
            },
        ensures
            match r {
                Ok(p) => old(self)@.concluded(*who, Ok(settled@), received@) == Ok::<
                    (ContractModel, PayoutModel),
                    StakingError,
                >((final(self)@, p@)),
                Err(e) => old(self)@.concluded(*who, Ok(settled@), received@) == Err::<
                    (ContractModel, PayoutModel),
                    StakingError,
                >(e) && final(self)@ == old(self)@,
            },
    {
        let available = self.balance.add(received);
        let total = settled.paid();
        if available.lt(&total) {
            return Err(StakingError::TransferFailure);
        }
        let position = Position { who: *who, stake: settled.stake };
        self.balance = available.sub(&total);
        self.pool = settled.pool;
        match slot {
            Some(i) => {
                self.positions.set(i, position);
            },
            None => {
                self.positions.push(position);
            },
        }
        proof {
            assert(final(self)@.positions =~= old(self)@.recorded(*who, settled@.stake));
        }
        Ok(Payout { to: *who, reward: settled.reward, principal: settled.principal })
    }

    /// `caller` deposits `payment` in second `now`.
    ///
    /// The payment joins the pool's balance. The reward pending on what the
    /// caller had at stake before is paid out of it.
    pub fn stake(&mut self, caller: &Address, payment: &Amount, now: u64) -> (r: Result<
        Payout,
        StakingError,
    >)
        requires
            old(self)@.wf(),
        ensures
            final(self)@.wf(),
            match r {
                Ok(p) => old(self)@.stake(*caller, payment@, now as nat) == Ok::<
                    (ContractModel, PayoutModel),
                    StakingError,
                >((final(self)@, p@)),
                Err(e) => old(self)@.stake(*caller, payment@, now as nat) == Err::<
                    (ContractModel, PayoutModel),
                    StakingError,
                >(e) && final(self)@ == old(self)@,
            },
    {
        let (slot, current) = self.lookup(caller);
        proof {
            lemma_position_is_backed(self@, *caller);
            lemma_stake_keeps_wf(self@, *caller, payment@, now as nat);
        }
        match deposit(&self.pool, &current, payment, now) {
            Err(e) => Err(e),
            Ok(settled) => self.conclude(caller, slot, settled, payment),
        }
    }

    /// `caller` withdraws its whole balance in second `now`, together with
    /// the reward pending on it.
    pub fn unstake(&mut self, caller: &Address, now: u64) -> (r: Result<Payout, StakingError>)
        requires
            old(self)@.wf(),
        ensures
            final(self)@.wf(),
            match r {
                Ok(p) => old(self)@.unstake(*caller, now as nat) == Ok::<
                    (ContractModel, PayoutModel),
                    StakingError,
                >((final(self)@, p@)),
                Err(e) => old(self)@.unstake(*caller, now as nat) == Err::<
                    (ContractModel, PayoutModel),
                    StakingError,
                >(e) && final(self)@ == old(self)@,
            },
    {
        let (slot, current) = self.lookup(caller);
        proof {
            lemma_position_is_backed(self@, *caller);
            lemma_unstake_keeps_wf(self@, *caller, now as nat);
        }
        match withdraw(&self.pool, &current, now) {
            Err(e) => Err(e),
            Ok(settled) => self.conclude(caller, slot, settled, &Amount::zero()),
        }
    }

    /// `caller` claims the reward pending on its balance in second `now`.
    pub fn claim_rewards(&mut self, caller: &Address, now: u64) -> (r: Result<
        Payout,
        StakingError,
    >)
        requires
            old(self)@.wf(),
        ensures
            final(self)@.wf(),
            match r {
                Ok(p) => old(self)@.claim_rewards(*caller, now as nat) == Ok::<
                    (ContractModel, PayoutModel),
                    StakingError,
                >((final(self)@, p@)),
                Err(e) => old(self)@.claim_rewards(*caller, now as nat) == Err::<
                    (ContractModel, PayoutModel),
                    StakingError,
                >(e) && final(self)@ == old(self)@,
            },
    {
        let (slot, current) = self.lookup(caller);
        proof {
            lemma_position_is_backed(self@, *caller);
            lemma_claim_rewards_keeps_wf(self@, *caller, now as nat);
        }
        match claim(&self.pool, &current, now) {
            Err(e) => Err(e),
            Ok(settled) => self.conclude(caller, slot, settled, &Amount::zero()),
        }
    }

    /// Tops up the pool's balance with `payment`. Nothing else changes.
    #[allow(non_snake_case)]
    pub fn fundMe(&mut self, payment: &Amount)
        ensures
            final(self)@ == old(self)@.funded(payment@),
            old(self)@.wf() ==> final(self)@.wf(),
    {
        self.balance = self.balance.add(payment);
    }

    /// Brings the pool up to second `now`.
    pub fn update_pool(&mut self, now: u64)
        ensures
            final(self)@ == old(self)@.synced(now as nat),
            old(self)@.wf() ==> final(self)@.wf(),
    {
        proof {
            if self@.wf() {
                lemma_synced_keeps_wf(self@, now as nat);
            }
        }
        self.pool.update_pool(now);
    }

    /// Pays `amount` to `to` out of the pool's balance as a reward. Nothing
    /// is transferred where the amount is zero.
    pub fn send_rewards(&mut self, to: &Address, amount: &Amount) -> (r: Result<
        Payout,
        StakingError,
    >)
        ensures
            old(self)@.wf() ==> final(self)@.wf(),
            match r {
                Ok(p) => old(self)@.send_rewards(*to, amount@) == Ok::<
                    (ContractModel, PayoutModel),
                    StakingError,
                >((final(self)@, p@)),
                Err(e) => old(self)@.send_rewards(*to, amount@) == Err::<
                    (ContractModel, PayoutModel),
                    StakingError,
                >(e) && final(self)@ == old(self)@,
            },
    {
        if self.balance.lt(amount) {
            return Err(StakingError::TransferFailure);
        }
        self.balance = self.balance.sub(amount);
        Ok(Payout { to: *to, reward: transfer_for(amount.clone()), principal: None })
    }

    /// The stake of `who`; an account that never deposited has nothing at
    /// stake.
    pub fn stakes(&self, who: &Address) -> (r: Stake)
        requires
            self@.wf(),
        ensures
            r@ == self@.position(*who),
    {
        self.lookup(who).1
    }

    /// The reward that `who` would be paid for a claim in second `now`.
    pub fn pending_reward(&self, who: &Address, now: u64) -> (r: Amount)
        requires
            self@.wf(),
        ensures
            r@ == self@.position(*who).pending(
                self@.pool.synced(now as nat).acc_reward_per_share,
            ),
    {
        let current = self.lookup(who).1;
        let mut synced = self.pool.clone();
        synced.update_pool(now);
        proof {
            lemma_position_is_backed(self@, *who);
            lemma_sync_keeps_backing(self@.pool, current@, now as nat);
        }
        current.pending_reward(&synced.acc_reward_per_share)
    }

    /// The sum of all balances at stake.
    pub fn get_total_staked(&self) -> (r: Amount)
        ensures
            r@ == self@.pool.total_staked,
    {
        self.pool.total_staked.clone()
    }

    /// The reward earned so far by one unit of stake held since the pool
    /// began.
    pub fn acc_reward_per_share(&self) -> (r: Amount)
        ensures
            r@ == self@.pool.acc_reward_per_share,
    {
        self.pool.acc_reward_per_share.clone()
    }

    /// The second up to which reward has been accrued.
    pub fn last_reward_time(&self) -> (r: u64)
        ensures
            r == self@.pool.last_reward_time,
    {
        self.pool.last_reward_time
    }

    /// What the pool holds to pay from.
    pub fn balance(&self) -> (r: Amount)
        ensures
            r@ == self@.balance,
    {
        self.balance.clone()
    }
}

} // verus!
