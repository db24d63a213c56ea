//! Construction of a configured ledger: named test accounts and
//! currencies, and a builder that endows balances and installs the default
//! risk configuration.

use vstd::prelude::*;
use crate::types::{AccountId, Balance, CurrencyId, Position, RiskParams, STABLE_CURRENCY};
use crate::runtime::Runtime;

verus! {

pub const ALICE: AccountId = 1;

pub const BOB: AccountId = 2;

pub const CAROL: AccountId = 3;

/// The stablecoin.
pub const XUSD: CurrencyId = STABLE_CURRENCY;

/// An accepted collateral asset under the default configuration.
pub const BTC: CurrencyId = 2;

/// A currency that is not accepted as collateral.
pub const DOT: CurrencyId = 3;

/// The balance an `(account, currency)` pair is endowed with: the last
/// matching entry wins, zero otherwise.
pub open spec fn endowed_value(
    s: Seq<(AccountId, CurrencyId, Balance)>,
    currency: CurrencyId,
    account: AccountId,
) -> Balance
    decreases s.len(),
{
    if s.len() == 0 {
        0
    } else if s.last().1 == currency && s.last().0 == account {
        s.last().2
    } else {
        endowed_value(s.drop_last(), currency, account)
    }
}

/// The default risk parameters of `BTC`: a debit unit is worth half a
/// stablecoin, a position must hold two units of collateral per stablecoin
/// of debt value, and a single position's debt value is capped at 300.
pub open spec fn btc_risk_params() -> RiskParams {
    RiskParams { rate_num: 1, rate_den: 2, collateral_ratio: 2, debit_value_cap: 300 }
}

/// Builds a fresh `Runtime` with endowed balances and the default risk
/// configuration.
pub struct ExtBuilder {
    pub endowed_accounts: Vec<(AccountId, CurrencyId, Balance)>,
}

impl Default for ExtBuilder {
    /// The default endowment: `ALICE` and `BOB` each hold 1000 `BTC`.
    fn default() -> (b: ExtBuilder)
        ensures
            b.endowed_accounts@ =~= seq![
                (ALICE, BTC, 1000u128),
                (BOB, BTC, 1000u128),
            ],
    {
        let mut v: Vec<(AccountId, CurrencyId, Balance)> = Vec::new();
        v.push((ALICE, BTC, 1000));
        v.push((BOB, BTC, 1000));
        ExtBuilder { endowed_accounts: v }
    }
}

impl ExtBuilder {
    /// Build the ledger: configure `BTC`, then credit each endowment in
    /// order, later entries overriding earlier ones for the same pair.
    pub fn build(self) -> (rt: Runtime)
        ensures
            rt.wf(),
            rt.block_number == 0,
            forall|a: CurrencyId, c: AccountId|
                #[trigger] rt.position_of(a, c) == Position::spec_zero(),
            forall|a: CurrencyId, c: AccountId| !#[trigger] rt.positions.contains(a, c),
            forall|a: CurrencyId| #[trigger] rt.total_collateral_of(a) == 0,
            forall|a: CurrencyId| #[trigger] rt.total_debit_of(a) == 0,
            forall|c: AccountId| #[trigger] rt.refs_of(c) == 0,
            forall|a: CurrencyId| #[trigger] rt.treasury_of(a) == 0,
            rt.debit_pool == 0,
            rt.events@.len() == 0,
            forall|a: CurrencyId, c: AccountId|
                #[trigger] rt.balance_of(a, c) == endowed_value(self.endowed_accounts@, a, c),
            rt.risk.spec_params(BTC) == Option::Some(btc_risk_params()),
            forall|a: CurrencyId|
                a != BTC ==> #[trigger] rt.risk.spec_params(a) == Option::<RiskParams>::None,
    {
        let mut rt = Runtime::new();
        let ghost rt_init = rt;
        rt.risk.insert(
            BTC,
            RiskParams { rate_num: 1, rate_den: 2, collateral_ratio: 2, debit_value_cap: 300 },
        );
        let ghost rt0 = rt;
        proof {
            assert forall|a: CurrencyId, c: AccountId|
                #[trigger] rt.balances.spec_get(a, c) == 0 by {
                assert(rt_init.balance_of(a, c) == 0);
            }
        }
        let mut i: usize = 0;
        while i < self.endowed_accounts.len()
            invariant
                i <= self.endowed_accounts@.len(),
                rt.balances.wf(),
                forall|a: CurrencyId, c: AccountId|
                    #[trigger] rt.balances.spec_get(a, c) == endowed_value(
                        self.endowed_accounts@.take(i as int),
                        a,
                        c,
                    ),
                rt.positions == rt0.positions,
                rt.total_collateral == rt0.total_collateral,
                rt.total_debit == rt0.total_debit,
                rt.refs == rt0.refs,
                rt.treasury_collateral == rt0.treasury_collateral,
                rt.debit_pool == rt0.debit_pool,
                rt.risk == rt0.risk,
                rt.events == rt0.events,
                rt.block_number == rt0.block_number,
            decreases self.endowed_accounts@.len() - i,
        {
            let entry = self.endowed_accounts[i];
            rt.balances.set(entry.1, entry.0, entry.2);
            proof {
                let s = self.endowed_accounts@;
                assert(s.take(i as int + 1).drop_last() =~= s.take(i as int));
                assert(s.take(i as int + 1).last() == s[i as int]);
            }
            i = i + 1;
        }
        proof {
            assert(self.endowed_accounts@.take(self.endowed_accounts@.len() as int)
                =~= self.endowed_accounts@);
            assert forall|a: CurrencyId, c: AccountId|
                #[trigger] rt.position_of(a, c) == Position::spec_zero() by {
                assert(rt.position_of(a, c) == rt0.position_of(a, c));
                assert(rt0.position_of(a, c) == rt_init.position_of(a, c));
            }
            assert forall|a: CurrencyId, c: AccountId| !#[trigger] rt.positions.contains(a, c) by {
                assert(rt.position_of(a, c) == rt0.position_of(a, c));
                assert(rt.positions.contains(a, c) == rt0.positions.contains(a, c));
                assert(rt0.position_of(a, c) == rt_init.position_of(a, c));
                assert(rt0.positions.contains(a, c) == rt_init.positions.contains(a, c));
            }
            assert forall|a: CurrencyId| #[trigger] rt.total_collateral_of(a) == 0 by {
                assert(rt.total_collateral_of(a) == rt0.total_collateral_of(a));
                assert(rt0.total_collateral_of(a) == rt_init.total_collateral_of(a));
            }
            assert forall|a: CurrencyId| #[trigger] rt.total_debit_of(a) == 0 by {
                assert(rt.total_debit_of(a) == rt0.total_debit_of(a));
                assert(rt0.total_debit_of(a) == rt_init.total_debit_of(a));
            }
            assert forall|a: CurrencyId| #[trigger] rt.treasury_of(a) == 0 by {
                assert(rt.treasury_of(a) == rt0.treasury_of(a));
                assert(rt0.treasury_of(a) == rt_init.treasury_of(a));
            }
            assert forall|c: AccountId| #[trigger] rt.refs_of(c) == 0 by {
                assert(rt.refs_of(c) == rt0.refs_of(c));
                assert(rt0.refs_of(c) == rt_init.refs_of(c));
            }
            assert forall|a: CurrencyId|
                a != BTC implies #[trigger] rt.risk.spec_params(a) == Option::<RiskParams>::None
                 by {
                assert(rt.risk.spec_params(a) == rt0.risk.spec_params(a));
                assert(rt_init.risk.spec_params(a) == Option::<RiskParams>::None);
            }
            assert(rt.wf()) by {
                assert forall|a: CurrencyId|
                    #[trigger] rt.total_collateral.spec_get(a, 0) == rt.positions.sum_collateral(
                    a,
                ) by {
                    assert(rt.total_collateral_of(a) == rt0.total_collateral_of(a));
                    assert(rt0.total_collateral_of(a) == rt_init.total_collateral_of(a));
                    assert(rt.positions.sum_collateral(a) == rt_init.positions.sum_collateral(a));
                    assert(rt_init.total_collateral.spec_get(a, 0) == rt_init.positions
                        .sum_collateral(a));
                    assert(rt_init.total_collateral_of(a) == 0);
                }
                assert forall|a: CurrencyId|
                    #[trigger] rt.total_debit.spec_get(a, 0) == rt.positions.sum_debit(a) by {
                    assert(rt.total_debit_of(a) == rt0.total_debit_of(a));
                    assert(rt0.total_debit_of(a) == rt_init.total_debit_of(a));
                    assert(rt.positions.sum_debit(a) == rt_init.positions.sum_debit(a));
                    assert(rt_init.total_debit.spec_get(a, 0) == rt_init.positions.sum_debit(a));
                    assert(rt_init.total_debit_of(a) == 0);
                }
                assert forall|c: AccountId|
                    #[trigger] rt.refs.spec_get(c, 0) == rt.positions.count_for(c) by {
                    assert(rt.refs_of(c) == rt0.refs_of(c));
                    assert(rt0.refs_of(c) == rt_init.refs_of(c));
                    assert(rt.positions.count_for(c) == rt_init.positions.count_for(c));
                    assert(rt_init.refs.spec_get(c, 0) == rt_init.positions.count_for(c));
                    assert(rt_init.refs_of(c) == 0);
                }
                assert forall|a: CurrencyId|
                    (#[trigger] rt.risk.spec_params(a)) is Some implies rt.risk.spec_params(
                    a,
                ).unwrap().rate_den > 0 by {
                    if a != BTC {
                        assert(rt.risk.spec_params(a) == rt0.risk.spec_params(a));
                    }
                }
            }
        }
        rt
    }
}

} // verus!
