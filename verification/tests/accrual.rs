use staking::{Amount, PoolState, REWARD_PER_SECOND};

fn amount(v: u64) -> Amount {
    Amount::from_u64(v)
}

fn pool(total_staked: u64, acc: u64, last: u64) -> PoolState {
    PoolState {
        total_staked: amount(total_staked),
        acc_reward_per_share: amount(acc),
        last_reward_time: last,
    }
}

fn assert_pool(p: &PoolState, total_staked: u64, acc: u64, last: u64) {
    assert_eq!(p.total_staked, amount(total_staked));
    assert_eq!(p.acc_reward_per_share, amount(acc));
    assert_eq!(p.last_reward_time, last);
}

#[test]
fn reward_rate_is_300_per_second() {
    assert_eq!(REWARD_PER_SECOND, 300);
}

#[test]
fn new_pool_starts_at_zero() {
    let p: PoolState = PoolState::new(1_700_000_000);
    assert_pool(&p, 0, 0, 1_700_000_000);
}

#[test]
fn update_pool_accrues_reward_per_share() {
    let mut p: PoolState = pool(1000, 0, 0);
    p.update_pool(100);
    // 100 s * 300 / 1000 = 30
    assert_pool(&p, 1000, 30, 100);
}

#[test]
fn update_pool_adds_to_what_was_accrued() {
    let mut p: PoolState = pool(2000, 15, 50);
    p.update_pool(100);
    // 50 s * 300 / 2000 = 7.5, rounded down
    assert_pool(&p, 2000, 22, 100);
}

#[test]
fn update_pool_rounds_down() {
    let mut p: PoolState = pool(7, 0, 0);
    p.update_pool(1);
    // 300 / 7 = 42.86
    assert_pool(&p, 7, 42, 1);
    let mut q: PoolState = pool(301, 5, 10);
    q.update_pool(11);
    // 300 / 301 = 0.99: the second is spent and nothing accrues
    assert_pool(&q, 301, 5, 11);
}

#[test]
fn update_pool_in_the_same_second_does_nothing() {
    let mut p: PoolState = pool(1000, 30, 100);
    p.update_pool(100);
    assert_pool(&p, 1000, 30, 100);
}

#[test]
fn update_pool_with_an_earlier_second_does_nothing() {
    let mut p: PoolState = pool(1000, 30, 100);
    p.update_pool(40);
    assert_pool(&p, 1000, 30, 100);
    p.update_pool(0);
    assert_pool(&p, 1000, 30, 100);
}

#[test]
fn update_pool_twice_changes_nothing_the_second_time() {
    let mut p: PoolState = pool(1000, 0, 0);
    p.update_pool(100);
    assert_pool(&p, 1000, 30, 100);
    p.update_pool(100);
    assert_pool(&p, 1000, 30, 100);
}

#[test]
fn update_pool_without_stake_moves_only_the_clock() {
    let mut p: PoolState = pool(0, 12, 100);
    p.update_pool(5000);
    assert_pool(&p, 0, 12, 5000);
}

#[test]
fn update_pool_over_the_longest_interval() {
    let mut p: PoolState = pool(1, 0, 0);
    p.update_pool(u64::MAX);
    assert_eq!(
        p.acc_reward_per_share.to_u128(),
        Some(u64::MAX as u128 * 300)
    );
    assert_eq!(p.last_reward_time, u64::MAX);
}

#[test]
fn update_pool_with_a_total_beyond_machine_integers() {
    // 2^128 at stake: no interval of seconds earns a whole unit per share
    let mut bytes: Vec<u8> = vec![1];
    bytes.extend(vec![0u8; 16]);
    let mut p: PoolState = PoolState {
        total_staked: Amount::from_be_bytes(&bytes),
        acc_reward_per_share: amount(9),
        last_reward_time: 0,
    };
    p.update_pool(u64::MAX);
    assert_eq!(p.acc_reward_per_share, amount(9));
    assert_eq!(p.last_reward_time, u64::MAX);
    assert_eq!(p.total_staked, Amount::from_be_bytes(&bytes));
}

#[test]
fn update_pool_with_the_largest_machine_total() {
    let mut p: PoolState = PoolState {
        total_staked: Amount::from_u128(u128::MAX),
        acc_reward_per_share: amount(0),
        last_reward_time: 0,
    };
    p.update_pool(u64::MAX);
    assert_eq!(p.acc_reward_per_share, amount(0));
    let mut q: PoolState = PoolState {
        total_staked: Amount::from_u128(u64::MAX as u128 * 100),
        acc_reward_per_share: amount(0),
        last_reward_time: 0,
    };
    q.update_pool(u64::MAX);
    assert_eq!(q.acc_reward_per_share, amount(3));
}

#[test]
fn pool_clone_is_the_same_pool() {
    let p: PoolState = pool(1000, 30, 100);
    let q: PoolState = p.clone();
    assert_pool(&q, 1000, 30, 100);
}
