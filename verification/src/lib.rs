//! A reward-accrual ledger for a single-asset staking pool.
//!
//! Stakers deposit a balance, the pool accrues a fixed reward per second, and
//! each staker earns in proportion to the balance held and the time it was
//! held. All amounts are natural numbers of unbounded size, and all
//! arithmetic is exact; only the division that turns elapsed time into
//! reward per share rounds, and it rounds down.
//!
//! - [`amount`] and [`digits`]: amounts and their arithmetic.
//! - [`pool`]: the accrual engine, which turns elapsed time into reward per
//!   share.
//! - [`stake`]: the stake of one account and the three account-level
//!   operations, as functions of the pool state and that one stake.
//! - [`contract`]: the pool as a whole, with the stake of every account and
//!   the balance that payouts come from.
//! - [`laws`]: what holds of the pool whatever is done to it.
//!
//! Every state transition is specified over a mathematical model of the
//! state and proved to follow it.

pub mod address;
pub mod amount;
pub mod contract;
pub mod digits;
pub mod error;
pub mod laws;
pub mod pool;
pub mod stake;

pub use address::Address;
pub use amount::Amount;
pub use contract::{ContractModel, Payout, PayoutModel, PositionModel, StakingContract};
pub use error::StakingError;
pub use pool::{PoolModel, PoolState, REWARD_PER_SECOND};
pub use stake::{Settlement, SettlementModel, Stake, StakeModel};
