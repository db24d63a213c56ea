//! A collateralized-debt-position (CDP) ledger.
//!
//! For each supported collateral asset the ledger tracks, per account, how
//! much of that asset is pledged as collateral and how much stablecoin debt
//! has been borrowed against it, together with per-asset totals that are
//! always the sum of the individual positions.  Three composite operations
//! are built on the single mutation primitive `update_loan`: user-facing
//! position adjustment (with the required balance settlement), transfer of a
//! whole position between accounts, and forced confiscation of a position's
//! assets into a recovery pool.  Every operation either commits in full or
//! reports an error having changed nothing.

mod types;
mod pos_store;
mod num_map;
mod risk_map;
mod runtime;
mod builder;

pub use types::{
    AccountId, Amount, Balance, CurrencyId, Error, Event, Position, RiskParams, ESCROW_ACCOUNT,
    STABLE_CURRENCY,
};
pub use pos_store::{PosEntry, PositionStore};
pub use num_map::{NumEntry, NumMap};
pub use risk_map::{RiskEntry, RiskMap};
pub use runtime::{debit_value, loan_updated, ref_delta, Runtime};
pub use builder::{btc_risk_params, endowed_value, ExtBuilder, ALICE, BOB, BTC, CAROL, DOT, XUSD};
