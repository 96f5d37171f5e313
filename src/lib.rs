//! Tax-on-transfer token with an epoch-gated reward pool.
//!
//! Every transfer diverts a tenth of its amount into a pool. At most once
//! per short epoch the authority converts the pool into settlement currency
//! and pays half of it out proportionally to the larger holders, the other
//! half to two jackpot winners picked from the largest holders.
//!
//! The library decides; the caller moves the funds. Each operation either
//! returns an error and leaves the state as it was, or updates the state and
//! says exactly which transfers to make.
pub mod state;
pub mod distribution;

pub use state::{
    AccountKey, ErrorCode, HolderInfo, ProgramState, TaxSplit, INITIAL_SETTLEMENT_RESERVE,
    TAX_DIVISOR, close, initialize, reset_pools, tax_split, transfer_with_tax,
};
pub use distribution::{
    Distribution, Payout, JACKPOT_THRESHOLD, MIN_EPOCH_SECONDS, PROPORTIONAL_THRESHOLD,
    SETTLEMENT_PER_LOT, TOKENS_PER_LOT, distribute, eligible_holders, jackpot_candidates,
    proportional_share, select_winners,
};

