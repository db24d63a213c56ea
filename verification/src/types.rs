//! Core value types of the ledger: identifiers, amounts, positions,
//! risk parameters, errors and events.

use vstd::prelude::*;

verus! {

/// An account identifier.
pub type AccountId = u64;

/// A currency (asset) identifier.
pub type CurrencyId = u64;

/// A non-negative amount of a currency, or of debit units.
pub type Balance = u128;

/// A signed adjustment applied to a `Balance`.
pub type Amount = i128;

/// The account that holds all pledged collateral in escrow.
pub const ESCROW_ACCOUNT: AccountId = 0;

/// The stablecoin that debit is settled in.  It is never itself a
/// collateral asset.
pub const STABLE_CURRENCY: CurrencyId = 1;

/// An account's collateral and debit balances for one asset.  A position
/// whose fields are both zero is never retained in storage; absence and the
/// zero position are indistinguishable to readers.
#[derive(Clone, Copy, PartialEq, Eq, Structural, Debug)]
pub struct Position {
    pub collateral: Balance,
    pub debit: Balance,
}

impl Position {
    /// The zero position, also returned for accounts with no stored record.
    pub open spec fn spec_zero() -> Position {
        Position { collateral: 0, debit: 0 }
    }

    pub open spec fn is_zero(self) -> bool {
        self.collateral == 0 && self.debit == 0
    }

    pub fn zero() -> (p: Position)
        ensures
            p == Position::spec_zero(),
    {
        Position { collateral: 0, debit: 0 }
    }
}

/// Per-asset risk configuration.
///
/// A unit of debit is worth `rate_num / rate_den` units of stablecoin.  A
/// position is valid while its collateral covers `collateral_ratio` times
/// the stablecoin value of its debit, and that value stays at or below
/// `debit_value_cap`.
#[derive(Clone, Copy, PartialEq, Eq, Structural, Debug)]
pub struct RiskParams {
    pub rate_num: u128,
    pub rate_den: u128,
    pub collateral_ratio: u128,
    pub debit_value_cap: u128,
}

/// The magnitude of a negative adjustment as an unsigned amount.
pub fn neg_magnitude(d: Amount) -> (m: Balance)
    requires
        d < 0,
    ensures
        m as int == -(d as int),
{
    ((-(d + 1)) as u128) + 1
}

/// Everything that can go wrong in a ledger operation.  All failures are
/// ordinary result values; a failed operation mutates nothing.
#[derive(Clone, Copy, PartialEq, Eq, Structural, Debug)]
pub enum Error {
    /// A collateral adjustment would drive the position's collateral below zero.
    CollateralTooLow,
    /// A debit adjustment would drive the position's debit below zero.
    DebitTooLow,
    /// Checked arithmetic overflowed the amount range.
    AmountOverflow,
    /// The resulting position would be insufficiently collateralized, or the
    /// asset is not an accepted collateral asset.
    BelowLiquidationRatio,
    /// The stablecoin value of the resulting debit exceeds the per-asset cap.
    ExceedDebitValueCap,
    /// A balance movement could not be covered by its source account.
    InsufficientBalance,
    /// The exchange could not perform a requested swap.
    ExchangeFailed,
    /// A swap would exceed the configured maximum slippage.
    SlippageExceeded,
}

/// Notifications appended by the composite operations; `update_loan` itself
/// emits nothing.
#[derive(Clone, Copy, PartialEq, Eq, Structural, Debug)]
pub enum Event {
    PositionUpdated(AccountId, CurrencyId, Amount, Amount),
    TransferLoan(AccountId, AccountId, CurrencyId),
    ConfiscateCollateralAndDebit(AccountId, CurrencyId, Balance, Balance),
}

} // verus!
