use staking::stake::{claim, deposit, transfer_for, withdraw};
use staking::{Amount, PoolState, Settlement, Stake, StakingError};

fn amount(v: u64) -> Amount {
    Amount::from_u64(v)
}

fn pool(total_staked: u64, acc: u64, last: u64) -> PoolState {
    PoolState {
        total_staked: amount(total_staked),
        acc_reward_per_share: amount(acc),
        last_reward_time: last,
    }
}

fn stake(balance: u64, reward_debt: u64) -> Stake {
    Stake {
        amount: amount(balance),
        reward_debt: amount(reward_debt),
    }
}

fn assert_pool(p: &PoolState, total_staked: u64, acc: u64, last: u64) {
    assert_eq!(p.total_staked, amount(total_staked));
    assert_eq!(p.acc_reward_per_share, amount(acc));
    assert_eq!(p.last_reward_time, last);
}

#[test]
fn default_stake_is_empty() {
    let s: Stake = Stake::default();
    assert!(s.amount.is_zero());
    assert!(s.reward_debt.is_zero());
    assert_eq!(s, stake(0, 0));
}

#[test]
fn stakes_compare_by_their_numbers() {
    assert_eq!(stake(1000, 30), stake(1000, 30));
    assert_ne!(stake(1000, 30), stake(1000, 31));
    assert_ne!(stake(1000, 30), stake(1001, 30));
    assert_eq!(stake(5, 6).clone(), stake(5, 6));
}

#[test]
fn pending_reward_is_earned_less_paid() {
    assert_eq!(stake(1000, 0).pending_reward(&amount(30)), amount(30_000));
    assert_eq!(
        stake(1000, 15_000).pending_reward(&amount(22)),
        amount(7_000)
    );
    assert_eq!(stake(1000, 30_000).pending_reward(&amount(30)), amount(0));
    assert_eq!(stake(0, 0).pending_reward(&amount(30)), amount(0));
}

#[test]
fn is_backed_by_checks_total_and_debt() {
    assert!(stake(1000, 30_000).is_backed_by(&pool(1000, 30, 0)));
    assert!(stake(1000, 0).is_backed_by(&pool(5000, 0, 0)));
    assert!(stake(0, 0).is_backed_by(&pool(0, 0, 0)));
    // more at stake than the pool has in total
    assert!(!stake(1001, 0).is_backed_by(&pool(1000, 30, 0)));
    // paid more than earned
    assert!(!stake(1000, 30_001).is_backed_by(&pool(1000, 30, 0)));
    assert!(!stake(0, 1).is_backed_by(&pool(1000, 30, 0)));
}

#[test]
fn transfer_for_nothing_is_no_transfer() {
    assert_eq!(transfer_for(amount(0)), None);
    assert_eq!(transfer_for(amount(1)), Some(amount(1)));
    assert_eq!(transfer_for(amount(30_000)), Some(amount(30_000)));
}

#[test]
fn paid_adds_reward_and_principal() {
    let both: Settlement = withdraw(&pool(3000, 0, 0), &stake(1000, 0), 100).unwrap();
    assert_eq!(both.reward, Some(amount(10_000)));
    assert_eq!(both.principal, Some(amount(1000)));
    assert_eq!(both.paid(), amount(11_000));
    let reward_only: Settlement = claim(&pool(1000, 0, 0), &stake(1000, 0), 100).unwrap();
    assert_eq!(reward_only.paid(), amount(30_000));
    let principal_only: Settlement = withdraw(&pool(1000, 0, 0), &stake(1000, 0), 0).unwrap();
    assert_eq!(principal_only.paid(), amount(1000));
    let nothing: Settlement = deposit(&pool(0, 0, 0), &stake(0, 0), &amount(5), 0).unwrap();
    assert_eq!(nothing.paid(), amount(0));
}

#[test]
fn first_deposit_pays_nothing_and_settles() {
    let s: Settlement = deposit(&PoolState::new(0), &Stake::default(), &amount(1000), 0).unwrap();
    assert_pool(&s.pool, 1000, 0, 0);
    assert_eq!(s.stake, stake(1000, 0));
    assert_eq!(s.reward, None);
    assert_eq!(s.principal, None);
}

#[test]
fn deposit_accrues_at_the_stake_held_before() {
    // 1000 at stake for 50 s: 15 per share, before the new 1000 count
    let s: Settlement = deposit(&pool(1000, 0, 0), &Stake::default(), &amount(1000), 50).unwrap();
    assert_pool(&s.pool, 2000, 15, 50);
    assert_eq!(s.stake, stake(1000, 15_000));
    assert_eq!(s.reward, None);
}

#[test]
fn second_deposit_pays_what_the_first_earned() {
    let s: Settlement = deposit(&pool(1000, 0, 0), &stake(1000, 0), &amount(500), 100).unwrap();
    assert_pool(&s.pool, 1500, 30, 100);
    // pending on the old balance: 1000 * 30 - 0
    assert_eq!(s.reward, Some(amount(30_000)));
    assert_eq!(s.principal, None);
    // debt on the new balance: 1500 * 30
    assert_eq!(s.stake, stake(1500, 45_000));
}

#[test]
fn deposit_of_nothing_is_invalid() {
    let r = deposit(&pool(1000, 0, 0), &stake(1000, 0), &amount(0), 100);
    assert_eq!(r.unwrap_err(), StakingError::InvalidAmount);
    let r = deposit(&PoolState::new(0), &Stake::default(), &Amount::zero(), 0);
    assert_eq!(r.unwrap_err(), StakingError::InvalidAmount);
}

#[test]
fn claim_pays_pending_and_settles() {
    let s: Settlement = claim(&pool(1000, 0, 0), &stake(1000, 0), 100).unwrap();
    assert_pool(&s.pool, 1000, 30, 100);
    assert_eq!(s.reward, Some(amount(30_000)));
    assert_eq!(s.principal, None);
    assert_eq!(s.stake, stake(1000, 30_000));
}

#[test]
fn claim_without_stake_is_no_stake() {
    let r = claim(&pool(1000, 0, 0), &Stake::default(), 100);
    assert_eq!(r.unwrap_err(), StakingError::NoStake);
}

#[test]
fn claim_without_pending_is_nothing_to_claim() {
    // settled at 30 per share, and no second has passed
    let r = claim(&pool(1000, 30, 100), &stake(1000, 30_000), 100);
    assert_eq!(r.unwrap_err(), StakingError::NothingToClaim);
    // a second has passed, and it was not worth a whole unit per share
    let r = claim(&pool(1000, 30, 100), &stake(1000, 30_000), 103);
    assert_eq!(r.unwrap_err(), StakingError::NothingToClaim);
}

#[test]
fn no_stake_comes_before_nothing_to_claim() {
    let r = claim(&pool(0, 0, 0), &Stake::default(), 0);
    assert_eq!(r.unwrap_err(), StakingError::NoStake);
}

#[test]
fn withdraw_returns_the_whole_balance_and_the_reward() {
    let s: Settlement = withdraw(&pool(3000, 0, 0), &stake(1000, 0), 100).unwrap();
    // 100 s * 300 / 3000 = 10 per share
    assert_pool(&s.pool, 2000, 10, 100);
    assert_eq!(s.reward, Some(amount(10_000)));
    assert_eq!(s.principal, Some(amount(1000)));
    assert_eq!(s.stake, stake(0, 0));
}

#[test]
fn withdraw_without_pending_returns_only_the_balance() {
    let s: Settlement = withdraw(&pool(1000, 30, 100), &stake(1000, 30_000), 100).unwrap();
    assert_pool(&s.pool, 0, 30, 100);
    assert_eq!(s.reward, None);
    assert_eq!(s.principal, Some(amount(1000)));
    assert_eq!(s.stake, stake(0, 0));
}

#[test]
fn withdraw_without_stake_is_no_stake() {
    let r = withdraw(&pool(1000, 30, 100), &Stake::default(), 200);
    assert_eq!(r.unwrap_err(), StakingError::NoStake);
}

#[test]
fn operations_leave_their_arguments_alone() {
    let p: PoolState = pool(1000, 0, 0);
    let s: Stake = stake(1000, 0);
    let _ = deposit(&p, &s, &amount(5), 100).unwrap();
    let _ = claim(&p, &s, 100).unwrap();
    let _ = withdraw(&p, &s, 100).unwrap();
    assert_pool(&p, 1000, 0, 0);
    assert_eq!(s, stake(1000, 0));
}

#[test]
fn error_messages() {
    assert_eq!(StakingError::InvalidAmount.message(), "Must pay more than 0");
    assert_eq!(StakingError::NoStake.message(), "No staked amount");
    assert_eq!(StakingError::NothingToClaim.message(), "No rewards to claim");
    assert_eq!(
        StakingError::TransferFailure.message(),
        "Insufficient balance for transfer"
    );
}

#[test]
fn one_account_deposits_and_claims_100_seconds_later() {
    let opened: Settlement =
        deposit(&PoolState::new(0), &Stake::default(), &amount(1000), 0).unwrap();
    let claimed: Settlement = claim(&opened.pool, &opened.stake, 100).unwrap();
    // accrual = 100 * 300 = 30000; per share += 30000 / 1000 = 30
    assert_pool(&claimed.pool, 1000, 30, 100);
    // pending = 1000 * 30 - 0
    assert_eq!(claimed.reward, Some(amount(30_000)));
    assert_eq!(claimed.stake, stake(1000, 30_000));
}

#[test]
fn two_accounts_deposit_50_seconds_apart() {
    let x: Settlement = deposit(&PoolState::new(0), &Stake::default(), &amount(1000), 0).unwrap();
    let y: Settlement = deposit(&x.pool, &Stake::default(), &amount(1000), 50).unwrap();
    // [0, 50) at 1000 staked: +15 per share
    assert_pool(&y.pool, 2000, 15, 50);
    let mut at_100: PoolState = y.pool.clone();
    at_100.update_pool(100);
    // [50, 100) at 2000 staked: +7 per share, 15000 / 2000 rounded down
    assert_pool(&at_100, 2000, 22, 100);
    assert_eq!(
        x.stake.pending_reward(&at_100.acc_reward_per_share),
        amount(22_000)
    );
    assert_eq!(
        y.stake.pending_reward(&at_100.acc_reward_per_share),
        amount(7_000)
    );
    assert_eq!(
        claim(&y.pool, &x.stake, 100).unwrap().reward,
        Some(amount(22_000))
    );
    assert_eq!(
        claim(&y.pool, &y.stake, 100).unwrap().reward,
        Some(amount(7_000))
    );
}
