//! The ledger runtime: the position store, its per-asset totals, the
//! multi-currency free-balance ledger, the per-account existence reference
//! counts, the recovery-pool treasury, the per-asset risk configuration and
//! the event log, together with the four operations that mutate them.
//!
//! Every operation validates completely before its first write, so each call
//! either commits in full or returns an error having changed nothing.

use vstd::prelude::*;
use crate::types::{
    AccountId, Amount, Balance, CurrencyId, Error, Event, Position, RiskParams, ESCROW_ACCOUNT,
    STABLE_CURRENCY,
};
use crate::pos_store::{lemma_count_bounds, lemma_sum_bounds, lemma_zero_absent, PositionStore};
use crate::num_map::NumMap;
use crate::risk_map::RiskMap;

verus! {

/// The stablecoin value of `d` debit units under the parameters `p`.
pub open spec fn debit_value(p: RiskParams, d: int) -> int {
    d * (p.rate_num as int) / (p.rate_den as int)
}

/// How an existence transition changes the reference count.
pub open spec fn ref_delta(was: bool, now: bool) -> int {
    if !was && now {
        1
    } else if was && !now {
        -1
    } else {
        0
    }
}

/// The whole ledger state.
pub struct Runtime {
    pub block_number: u64,
    pub positions: PositionStore,
    pub total_collateral: NumMap,
    pub total_debit: NumMap,
    pub balances: NumMap,
    pub refs: NumMap,
    pub treasury_collateral: NumMap,
    pub debit_pool: Balance,
    pub risk: RiskMap,
    pub events: Vec<Event>,
}

/// What a successful `update_loan` by `(ca, da)` does to the position store,
/// the totals and the reference counts; it says nothing of balances, the
/// treasury or the event log.
pub open spec fn loan_updated(
    pre: Runtime,
    post: Runtime,
    who: AccountId,
    asset: CurrencyId,
    ca: int,
    da: int,
) -> bool {
    let p0 = pre.position_of(asset, who);
    let nc = (p0.collateral + ca) as u128;
    let nd = (p0.debit + da) as u128;
    let was = pre.positions.contains(asset, who);
    let now = !(nc == 0 && nd == 0);
    &&& post.position_of(asset, who) == (Position { collateral: nc, debit: nd })
    &&& post.positions.contains(asset, who) == now
    &&& forall|a: CurrencyId, c: AccountId|
        !(a == asset && c == who) ==> #[trigger] post.position_of(a, c) == pre.position_of(a, c)
    &&& forall|a: CurrencyId, c: AccountId|
        !(a == asset && c == who) ==> #[trigger] post.positions.contains(a, c)
            == pre.positions.contains(a, c)
    &&& post.total_collateral_of(asset) == pre.total_collateral_of(asset) + ca
    &&& post.total_debit_of(asset) == pre.total_debit_of(asset) + da
    &&& forall|a: CurrencyId|
        a != asset ==> #[trigger] post.total_collateral_of(a) == pre.total_collateral_of(a)
    &&& forall|a: CurrencyId|
        a != asset ==> #[trigger] post.total_debit_of(a) == pre.total_debit_of(a)
    &&& post.refs_of(who) == pre.refs_of(who) + ref_delta(was, now)
    &&& forall|c: AccountId| c != who ==> #[trigger] post.refs_of(c) == pre.refs_of(c)
}

impl Runtime {
    /// The position of `(asset, account)`; the zero position if none is
    /// recorded.
    pub open spec fn position_of(self, asset: CurrencyId, account: AccountId) -> Position {
        self.positions.spec_get(asset, account)
    }

    /// The recorded total collateral of `asset`.
    pub open spec fn total_collateral_of(self, asset: CurrencyId) -> Balance {
        self.total_collateral.spec_get(asset, 0)
    }

    /// The recorded total debit of `asset`.
    pub open spec fn total_debit_of(self, asset: CurrencyId) -> Balance {
        self.total_debit.spec_get(asset, 0)
    }

    /// The free balance of `account` in `currency`.
    pub open spec fn balance_of(self, currency: CurrencyId, account: AccountId) -> Balance {
        self.balances.spec_get(currency, account)
    }

    /// The existence reference count of `account`.
    pub open spec fn refs_of(self, account: AccountId) -> u128 {
        self.refs.spec_get(account, 0)
    }

    /// The recovery pool's collateral of `asset`.
    pub open spec fn treasury_of(self, asset: CurrencyId) -> Balance {
        self.treasury_collateral.spec_get(asset, 0)
    }

    /// The ledger invariant: the stores are well formed, each asset's
    /// recorded totals are the sums of its stored positions, each account's
    /// reference count is its number of open positions, and the risk
    /// configuration is sound (positive rate denominators, and the
    /// stablecoin itself is never a collateral asset).
    pub open spec fn wf(self) -> bool {
        &&& self.positions.wf()
        &&& self.total_collateral.wf()
        &&& self.total_debit.wf()
        &&& self.balances.wf()
        &&& self.refs.wf()
        &&& self.treasury_collateral.wf()
        &&& forall|a: CurrencyId|
            #[trigger] self.total_collateral.spec_get(a, 0) == self.positions.sum_collateral(a)
        &&& forall|a: CurrencyId|
            #[trigger] self.total_debit.spec_get(a, 0) == self.positions.sum_debit(a)
        &&& forall|c: AccountId| #[trigger] self.refs.spec_get(c, 0) == self.positions.count_for(c)
        &&& self.risk.spec_params(STABLE_CURRENCY) == Option::<RiskParams>::None
        &&& forall|a: CurrencyId|
            (#[trigger] self.risk.spec_params(a)) is Some ==> self.risk.spec_params(
                a,
            ).unwrap().rate_den > 0
    }

    /// Which result `update_loan` returns: underflow of either field is
    /// rejected first, then overflow of the new position or of the totals.
    pub open spec fn update_outcome(
        self,
        who: AccountId,
        asset: CurrencyId,
        ca: int,
        da: int,
    ) -> Result<(), Error> {
        let p = self.position_of(asset, who);
        if p.collateral + ca < 0 {
            Result::Err(Error::CollateralTooLow)
        } else if p.debit + da < 0 {
            Result::Err(Error::DebitTooLow)
        } else if p.collateral + ca > u128::MAX || p.debit + da > u128::MAX
            || self.total_collateral_of(asset) + ca > u128::MAX || self.total_debit_of(asset) + da
            > u128::MAX {
            Result::Err(Error::AmountOverflow)
        } else {
            Result::Ok(())
        }
    }

    /// An empty ledger: no positions, no balances, no configuration.
    pub fn new() -> (rt: Runtime)
        ensures
            rt.wf(),
            rt.block_number == 0,
            forall|a: CurrencyId, c: AccountId|
                #[trigger] rt.position_of(a, c) == Position::spec_zero(),
            forall|a: CurrencyId, c: AccountId| !#[trigger] rt.positions.contains(a, c),
            forall|a: CurrencyId| #[trigger] rt.total_collateral_of(a) == 0,
            forall|a: CurrencyId| #[trigger] rt.total_debit_of(a) == 0,
            forall|a: CurrencyId, c: AccountId| #[trigger] rt.balance_of(a, c) == 0,
            forall|c: AccountId| #[trigger] rt.refs_of(c) == 0,
            forall|a: CurrencyId| #[trigger] rt.treasury_of(a) == 0,
            rt.debit_pool == 0,
            forall|a: CurrencyId| #[trigger] rt.risk.spec_params(a) == Option::<RiskParams>::None,
            rt.events@.len() == 0,
    {
        Runtime {
            block_number: 0,
            positions: PositionStore::new(),
            total_collateral: NumMap::new(),
            total_debit: NumMap::new(),
            balances: NumMap::new(),
            refs: NumMap::new(),
            treasury_collateral: NumMap::new(),
            debit_pool: 0,
            risk: RiskMap::new(),
            events: Vec::new(),
        }
    }

    /// The bookkeeping primitive: apply signed deltas to one position,
    /// update the asset's totals by the same deltas, and fire exactly one
    /// existence-reference transition when the position is created or
    /// removed.  It moves no balances and emits no event; all checks run
    /// before the first write.
    pub fn update_loan(
        &mut self,
        who: AccountId,
        currency_id: CurrencyId,
        collateral_adjustment: Amount,
        debit_adjustment: Amount,
    ) -> (r: Result<(), Error>)
        requires
            old(self).wf(),
        ensures
            final(self).wf(),
            r == old(self).update_outcome(
                who,
                currency_id,
                collateral_adjustment as int,
                debit_adjustment as int,
            ),
            r is Err ==> *final(self) == *old(self),
            r is Ok ==> loan_updated(
                *old(self),
                *final(self),
                who,
                currency_id,
                collateral_adjustment as int,
                debit_adjustment as int,
            ),
            r is Ok ==> final(self).balances == old(self).balances
                && final(self).treasury_collateral == old(self).treasury_collateral
                && final(self).debit_pool == old(self).debit_pool
                && final(self).risk == old(self).risk
                && final(self).events == old(self).events
                && final(self).block_number == old(self).block_number,
    {
        let p0 = self.positions.get(currency_id, who);
        let list_len = self.positions.entries.len();
        let c_res = p0.collateral.checked_add_signed(collateral_adjustment);
        let d_res = p0.debit.checked_add_signed(debit_adjustment);
        if c_res.is_none() && collateral_adjustment < 0 {
            return Result::Err(Error::CollateralTooLow);
        }
        if d_res.is_none() && debit_adjustment < 0 {
            return Result::Err(Error::DebitTooLow);
        }
        let nc = match c_res {
            Option::Some(v) => v,
            Option::None => {
                return Result::Err(Error::AmountOverflow);
            },
        };
        let nd = match d_res {
            Option::Some(v) => v,
            Option::None => {
                return Result::Err(Error::AmountOverflow);
            },
        };
        let tc = self.total_collateral.get(currency_id, 0);
        let td = self.total_debit.get(currency_id, 0);
        proof {
            lemma_sum_bounds(self.positions.entries@, currency_id, who);
        }
        let ntc = match tc.checked_add_signed(collateral_adjustment) {
            Option::Some(v) => v,
            Option::None => {
                return Result::Err(Error::AmountOverflow);
            },
        };
        let ntd = match td.checked_add_signed(debit_adjustment) {
            Option::Some(v) => v,
            Option::None => {
                return Result::Err(Error::AmountOverflow);
            },
        };
        // all checks have passed: commit
        let was = !(p0.collateral == 0 && p0.debit == 0);
        proof {
            lemma_zero_absent(self.positions.entries@, currency_id, who);
            lemma_count_bounds(self.positions.entries@, currency_id, who);
        }
        self.positions.set(currency_id, who, Position { collateral: nc, debit: nd });
        self.total_collateral.set(currency_id, 0, ntc);
        self.total_debit.set(currency_id, 0, ntd);
        let now = !(nc == 0 && nd == 0);
        if !was && now {
            let r0 = self.refs.get(who, 0);
            proof {
                assert(r0 == old(self).positions.count_for(who));
                assert(old(self).positions.count_for(who) <= list_len);
            }
            self.refs.set(who, 0, r0 + 1);
        } else if was && !now {
            let r0 = self.refs.get(who, 0);
            proof {
                assert(r0 == old(self).positions.count_for(who));
                assert(old(self).positions.count_for(who) >= 1);
            }
            self.refs.set(who, 0, r0 - 1);
        }
        proof {
            assert forall|a: CurrencyId|
                #[trigger] self.total_collateral.spec_get(a, 0) == self.positions.sum_collateral(
                a,
            ) by {
                if a != currency_id {
                    assert(self.total_collateral.spec_get(a, 0) == old(self).total_collateral.spec_get(a, 0));
                }
            }
            assert forall|a: CurrencyId|
                #[trigger] self.total_debit.spec_get(a, 0) == self.positions.sum_debit(a) by {
                if a != currency_id {
                    assert(self.total_debit.spec_get(a, 0) == old(self).total_debit.spec_get(
                        a,
                        0,
                    ));
                }
            }
            assert forall|c: AccountId|
                #[trigger] self.refs.spec_get(c, 0) == self.positions.count_for(c) by {
                if c != who {
                    assert(self.refs.spec_get(c, 0) == old(self).refs.spec_get(c, 0));
                }
            }
        }
        Result::Ok(())
    }

    /// The error a balance transfer of `amount` from `from` to `to` would
    /// produce, if any.
    pub open spec fn xfer_error(
        self,
        currency: CurrencyId,
        from: AccountId,
        to: AccountId,
        amount: int,
    ) -> Option<Error> {
        if self.balance_of(currency, from) < amount {
            Option::Some(Error::InsufficientBalance)
        } else if from != to && self.balance_of(currency, to) + amount > u128::MAX {
            Option::Some(Error::AmountOverflow)
        } else {
            Option::None
        }
    }

    /// Which result `adjust_position` returns: the arithmetic checks of
    /// `update_loan` first, then the risk checks (an unconfigured asset is
    /// not accepted collateral), then the collateral movement, then the
    /// stablecoin settlement of the debit change.
    pub open spec fn adjust_outcome(
        self,
        who: AccountId,
        asset: CurrencyId,
        ca: int,
        da: int,
    ) -> Result<(), Error> {
        let p = self.position_of(asset, who);
        let nc = p.collateral + ca;
        let nd = p.debit + da;
        if self.update_outcome(who, asset, ca, da) is Err {
            self.update_outcome(who, asset, ca, da)
        } else if self.risk.spec_params(asset) is None {
            Result::Err(Error::BelowLiquidationRatio)
        } else {
            let rp = self.risk.spec_params(asset).unwrap();
            let coll_err = if ca >= 0 {
                self.xfer_error(asset, who, ESCROW_ACCOUNT, ca)
            } else {
                self.xfer_error(asset, ESCROW_ACCOUNT, who, -ca)
            };
            if nd * rp.rate_num > u128::MAX {
                Result::Err(Error::AmountOverflow)
            } else if nc < debit_value(rp, nd) * rp.collateral_ratio {
                Result::Err(Error::BelowLiquidationRatio)
            } else if debit_value(rp, nd) > rp.debit_value_cap {
                Result::Err(Error::ExceedDebitValueCap)
            } else if coll_err is Some {
                Result::Err(coll_err.unwrap())
            } else if da > 0 {
                if da * rp.rate_num > u128::MAX {
                    Result::Err(Error::AmountOverflow)
                } else if self.balance_of(STABLE_CURRENCY, who) + debit_value(rp, da)
                    > u128::MAX {
                    Result::Err(Error::AmountOverflow)
                } else {
                    Result::Ok(())
                }
            } else if da < 0 {
                if (-da) * rp.rate_num > u128::MAX {
                    Result::Err(Error::AmountOverflow)
                } else if self.balance_of(STABLE_CURRENCY, who) < debit_value(rp, -da) {
                    Result::Err(Error::InsufficientBalance)
                } else {
                    Result::Ok(())
                }
            } else {
                Result::Ok(())
            }
        }
    }

    /// How a successful `adjust_position` changes the free balance of
    /// `(a2, c2)`: the collateral moves between `who` and the escrow, and
    /// the stablecoin value of the debit change is paid to or taken from
    /// `who`.
    pub open spec fn adjust_balance_delta(
        self,
        who: AccountId,
        asset: CurrencyId,
        ca: int,
        da: int,
        a2: CurrencyId,
        c2: AccountId,
    ) -> int {
        let rp = self.risk.spec_params(asset).unwrap();
        let from = if ca >= 0 {
            who
        } else {
            ESCROW_ACCOUNT
        };
        let to = if ca >= 0 {
            ESCROW_ACCOUNT
        } else {
            who
        };
        let amt = if ca >= 0 {
            ca
        } else {
            -ca
        };
        let coll = (if a2 == asset && c2 == to {
            amt
        } else {
            0
        }) - (if a2 == asset && c2 == from {
            amt
        } else {
            0
        });
        let stable = if a2 == STABLE_CURRENCY && c2 == who {
            if da > 0 {
                debit_value(rp, da)
            } else if da < 0 {
                -debit_value(rp, -da)
            } else {
                0
            }
        } else {
            0
        };
        coll + stable
    }

    /// The user-facing composite operation: validate the adjusted position
    /// against the risk configuration, move the collateral between `who`
    /// and the escrow, apply the deltas through `update_loan`, settle the
    /// debit change in stablecoin, and emit `PositionUpdated`.  Validation
    /// runs strictly before any balance movement.
    pub fn adjust_position(
        &mut self,
        who: AccountId,
        currency_id: CurrencyId,
        collateral_adjustment: Amount,
        debit_adjustment: Amount,
    ) -> (r: Result<(), Error>)
        requires
            old(self).wf(),
        ensures
            final(self).wf(),
            r == old(self).adjust_outcome(
                who,
                currency_id,
                collateral_adjustment as int,
                debit_adjustment as int,
            ),
            r is Err ==> *final(self) == *old(self),
            r is Ok ==> loan_updated(
                *old(self),
                *final(self),
                who,
                currency_id,
                collateral_adjustment as int,
                debit_adjustment as int,
            ),
            r is Ok ==> forall|a2: CurrencyId, c2: AccountId|
                #[trigger] final(self).balance_of(a2, c2) == old(self).balance_of(a2, c2) + old(self).adjust_balance_delta(
                    who,
                    currency_id,
                    collateral_adjustment as int,
                    debit_adjustment as int,
                    a2,
                    c2,
                ),
            r is Ok ==> final(self).events@ == old(self).events@.push(
                Event::PositionUpdated(
                    who,
                    currency_id,
                    collateral_adjustment,
                    debit_adjustment,
                ),
            ),
            r is Ok ==> final(self).treasury_collateral == old(self).treasury_collateral
                && final(self).debit_pool == old(self).debit_pool
                && final(self).risk == old(self).risk
                && final(self).block_number == old(self).block_number,
    {
        let p0 = self.positions.get(currency_id, who);
        let c_res = p0.collateral.checked_add_signed(collateral_adjustment);
        let d_res = p0.debit.checked_add_signed(debit_adjustment);
        if c_res.is_none() && collateral_adjustment < 0 {
            return Result::Err(Error::CollateralTooLow);
        }
        if d_res.is_none() && debit_adjustment < 0 {
            return Result::Err(Error::DebitTooLow);
        }
        let nc = match c_res {
            Option::Some(v) => v,
            Option::None => {
                return Result::Err(Error::AmountOverflow);
            },
        };
        let nd = match d_res {
            Option::Some(v) => v,
            Option::None => {
                return Result::Err(Error::AmountOverflow);
            },
        };
        let tc = self.total_collateral.get(currency_id, 0);
        let td = self.total_debit.get(currency_id, 0);
        proof {
            lemma_sum_bounds(self.positions.entries@, currency_id, who);
        }
        if tc.checked_add_signed(collateral_adjustment).is_none() {
            return Result::Err(Error::AmountOverflow);
        }
        if td.checked_add_signed(debit_adjustment).is_none() {
            return Result::Err(Error::AmountOverflow);
        }
        // risk checks
        let rp = match self.risk.get(currency_id) {
            Option::Some(rp) => rp,
            Option::None => {
                return Result::Err(Error::BelowLiquidationRatio);
            },
        };
        proof {
            assert(self.risk.spec_params(currency_id) is Some);
            assert(rp.rate_den > 0);
            assert(currency_id != STABLE_CURRENCY);
        }
        let dv_num = match nd.checked_mul(rp.rate_num) {
            Option::Some(v) => v,
            Option::None => {
                return Result::Err(Error::AmountOverflow);
            },
        };
        let dv = dv_num / rp.rate_den;
        match dv.checked_mul(rp.collateral_ratio) {
            Option::Some(required) => {
                if nc < required {
                    return Result::Err(Error::BelowLiquidationRatio);
                }
            },
            Option::None => {
                // the required collateral exceeds any representable amount
                return Result::Err(Error::BelowLiquidationRatio);
            },
        }
        if dv > rp.debit_value_cap {
            return Result::Err(Error::ExceedDebitValueCap);
        }
        // collateral movement checks
        let moving_in = collateral_adjustment >= 0;
        let amt = if moving_in {
            collateral_adjustment as u128
        } else {
            crate::types::neg_magnitude(collateral_adjustment)
        };
        let from_acc = if moving_in {
            who
        } else {
            ESCROW_ACCOUNT
        };
        let to_acc = if moving_in {
            ESCROW_ACCOUNT
        } else {
            who
        };
        let bal_from = self.balances.get(currency_id, from_acc);
        if bal_from < amt {
            return Result::Err(Error::InsufficientBalance);
        }
        let bal_to = self.balances.get(currency_id, to_acc);
        if from_acc != to_acc && bal_to > u128::MAX - amt {
            return Result::Err(Error::AmountOverflow);
        }
        // stablecoin settlement checks
        let stable_bal = self.balances.get(STABLE_CURRENCY, who);
        let mut stable_amt: u128 = 0;
        if debit_adjustment > 0 {
            let v = match (debit_adjustment as u128).checked_mul(rp.rate_num) {
                Option::Some(v) => v,
                Option::None => {
                    return Result::Err(Error::AmountOverflow);
                },
            };
            let dv_delta = v / rp.rate_den;
            if stable_bal > u128::MAX - dv_delta {
                return Result::Err(Error::AmountOverflow);
            }
            stable_amt = dv_delta;
        } else if debit_adjustment < 0 {
            let m = crate::types::neg_magnitude(debit_adjustment);
            let v = match m.checked_mul(rp.rate_num) {
                Option::Some(v) => v,
                Option::None => {
                    return Result::Err(Error::AmountOverflow);
                },
            };
            let dv_delta = v / rp.rate_den;
            if stable_bal < dv_delta {
                return Result::Err(Error::InsufficientBalance);
            }
            stable_amt = dv_delta;
        }
        // all checks have passed: commit
        self.balances.set(currency_id, from_acc, bal_from - amt);
        let ghost b1 = self.balances;
        let bal_to2 = self.balances.get(currency_id, to_acc);
        self.balances.set(currency_id, to_acc, bal_to2 + amt);
        let ghost b2 = self.balances;
        let ghost pre_ul = *self;
        let ur = self.update_loan(who, currency_id, collateral_adjustment, debit_adjustment);
        let ghost post_ul = *self;
        match ur {
            Result::Ok(()) => {},
            Result::Err(e) => {
                proof {
                    assert(false);
                }
                return Result::Err(e);
            },
        }
        if debit_adjustment > 0 {
            let b = self.balances.get(STABLE_CURRENCY, who);
            self.balances.set(STABLE_CURRENCY, who, b + stable_amt);
        } else if debit_adjustment < 0 {
            let b = self.balances.get(STABLE_CURRENCY, who);
            self.balances.set(STABLE_CURRENCY, who, b - stable_amt);
        }
        let ghost b3 = self.balances;
        self.events.push(
            Event::PositionUpdated(who, currency_id, collateral_adjustment, debit_adjustment),
        );
        proof {
            let ghost ca = collateral_adjustment as int;
            let ghost da = debit_adjustment as int;
            assert(loan_updated(pre_ul, post_ul, who, currency_id, ca, da));
            assert(pre_ul.positions == old(self).positions && post_ul.positions == self.positions);
            assert(pre_ul.total_collateral == old(self).total_collateral && post_ul.total_collateral
                == self.total_collateral);
            assert(pre_ul.total_debit == old(self).total_debit && post_ul.total_debit
                == self.total_debit);
            assert(pre_ul.refs == old(self).refs && post_ul.refs == self.refs);
            assert forall|a: CurrencyId, c: AccountId|
                !(a == currency_id && c == who) implies #[trigger] self.position_of(a, c) == old(self).position_of(a, c) by {
                assert(post_ul.position_of(a, c) == pre_ul.position_of(a, c));
            }
            assert forall|a: CurrencyId, c: AccountId|
                !(a == currency_id && c == who) implies #[trigger] self.positions.contains(a, c)
                == old(self).positions.contains(a, c) by {
                assert(post_ul.positions.contains(a, c) == pre_ul.positions.contains(a, c));
            }
            assert forall|a: CurrencyId|
                a != currency_id implies #[trigger] self.total_collateral_of(a) == old(self).total_collateral_of(a) by {
                assert(post_ul.total_collateral_of(a) == pre_ul.total_collateral_of(a));
            }
            assert forall|a: CurrencyId|
                a != currency_id implies #[trigger] self.total_debit_of(a) == old(self).total_debit_of(a) by {
                assert(post_ul.total_debit_of(a) == pre_ul.total_debit_of(a));
            }
            assert forall|c: AccountId|
                c != who implies #[trigger] self.refs_of(c) == old(self).refs_of(c) by {
                assert(post_ul.refs_of(c) == pre_ul.refs_of(c));
            }
            assert(loan_updated(*old(self), *self, who, currency_id, ca, da));
            assert forall|a2: CurrencyId, c2: AccountId|
                #[trigger] self.balance_of(a2, c2) == old(self).balance_of(a2, c2) + old(self).adjust_balance_delta(
                who,
                currency_id,
                collateral_adjustment as int,
                debit_adjustment as int,
                a2,
                c2,
            ) by {
                assert(b1.spec_get(a2, c2) == b1.spec_get(a2, c2));
                assert(b2.spec_get(a2, c2) == b2.spec_get(a2, c2));
                assert(b3.spec_get(a2, c2) == b3.spec_get(a2, c2));
            }
        }
        Result::Ok(())
    }

    /// Which result `transfer_loan` returns: `from`'s position must fit the
    /// signed amount range, and crediting it to `to` must not overflow the
    /// target position or the asset's totals.
    pub open spec fn transfer_outcome(
        self,
        from: AccountId,
        to: AccountId,
        asset: CurrencyId,
    ) -> Result<(), Error> {
        let pf = self.position_of(asset, from);
        if pf.collateral > i128::MAX || pf.debit > i128::MAX {
            Result::Err(Error::AmountOverflow)
        } else {
            self.update_outcome(to, asset, pf.collateral as int, pf.debit as int)
        }
    }

    /// Move the whole of `from`'s position at `asset` onto `to`'s position,
    /// reading `from`'s balances once and applying two `update_loan` calls:
    /// the fallible credit to `to` first, so a failure never leaves `from`
    /// zeroed without crediting `to`.  Emits `TransferLoan` on success.
    pub fn transfer_loan(&mut self, from: AccountId, to: AccountId, currency_id: CurrencyId) -> (r:
        Result<(), Error>)
        requires
            old(self).wf(),
        ensures
            final(self).wf(),
            r == old(self).transfer_outcome(from, to, currency_id),
            r is Err ==> *final(self) == *old(self),
            r is Ok ==> final(self).balances == old(self).balances
                && final(self).treasury_collateral == old(self).treasury_collateral
                && final(self).debit_pool == old(self).debit_pool
                && final(self).risk == old(self).risk
                && final(self).block_number == old(self).block_number
                && final(self).events@ == old(self).events@.push(
                Event::TransferLoan(from, to, currency_id),
            ),
            // conservation: the two accounts' combined position is invariant
            r is Ok ==> final(self).position_of(currency_id, from).collateral + final(self).position_of(currency_id, to).collateral == old(self).position_of(
                currency_id,
                from,
            ).collateral + old(self).position_of(currency_id, to).collateral && final(self).position_of(currency_id, from).debit + final(self).position_of(
                currency_id,
                to,
            ).debit == old(self).position_of(currency_id, from).debit + old(self).position_of(
                currency_id,
                to,
            ).debit,
            r is Ok ==> forall|a: CurrencyId|
                #[trigger] final(self).total_collateral_of(a) == old(self).total_collateral_of(a),
            r is Ok ==> forall|a: CurrencyId|
                #[trigger] final(self).total_debit_of(a) == old(self).total_debit_of(a),
            r is Ok && from != to ==> final(self).position_of(currency_id, to) == (Position {
                collateral: (old(self).position_of(currency_id, to).collateral + old(self).position_of(currency_id, from).collateral) as u128,
                debit: (old(self).position_of(currency_id, to).debit + old(self).position_of(
                    currency_id,
                    from,
                ).debit) as u128,
            }) && final(self).position_of(currency_id, from) == Position::spec_zero() && !final(self).positions.contains(currency_id, from),
            r is Ok && from != to ==> final(self).refs_of(from) == old(self).refs_of(from) - (
            if old(self).positions.contains(currency_id, from) {
                1int
            } else {
                0
            }),
            r is Ok && from != to ==> final(self).refs_of(to) == old(self).refs_of(to)
                + ref_delta(
                old(self).positions.contains(currency_id, to),
                !(old(self).position_of(currency_id, to).collateral + old(self).position_of(
                    currency_id,
                    from,
                ).collateral == 0 && old(self).position_of(currency_id, to).debit + old(self).position_of(currency_id, from).debit == 0),
            ),
            r is Ok && from != to ==> forall|c: AccountId|
                c != from && c != to ==> #[trigger] final(self).refs_of(c) == old(self).refs_of(c),
            r is Ok && from != to ==> forall|a: CurrencyId, c: AccountId|
                !(a == currency_id && (c == from || c == to)) ==> #[trigger] final(self).position_of(a, c) == old(self).position_of(a, c),
            r is Ok && from != to ==> forall|a: CurrencyId, c: AccountId|
                !(a == currency_id && (c == from || c == to)) ==> #[trigger] final(self).positions.contains(a, c) == old(self).positions.contains(a, c),
            r is Ok && from != to ==> final(self).positions.contains(currency_id, to) == !(old(self).position_of(currency_id, to).collateral + old(self).position_of(
                currency_id,
                from,
            ).collateral == 0 && old(self).position_of(currency_id, to).debit + old(self).position_of(currency_id, from).debit == 0),
            r is Ok && from == to ==> (forall|a: CurrencyId, c: AccountId|
                #[trigger] final(self).position_of(a, c) == old(self).position_of(a, c)) && (
            forall|a: CurrencyId, c: AccountId|
                #[trigger] final(self).positions.contains(a, c) == old(self).positions.contains(
                    a,
                    c,
                )) && (
            forall|c: AccountId| #[trigger] final(self).refs_of(c) == old(self).refs_of(c)),
    {
        let pf = self.positions.get(currency_id, from);
        if pf.collateral > i128::MAX as u128 {
            return Result::Err(Error::AmountOverflow);
        }
        if pf.debit > i128::MAX as u128 {
            return Result::Err(Error::AmountOverflow);
        }
        let c_amt = pf.collateral as i128;
        let d_amt = pf.debit as i128;
        proof {
            lemma_zero_absent(self.positions.entries@, currency_id, from);
        }
        let r1 = self.update_loan(to, currency_id, c_amt, d_amt);
        match r1 {
            Result::Ok(()) => {},
            Result::Err(e) => {
                return Result::Err(e);
            },
        }
        let ghost mid = *self;
        let r2 = self.update_loan(from, currency_id, -c_amt, -d_amt);
        match r2 {
            Result::Ok(()) => {},
            Result::Err(e) => {
                proof {
                    assert(false);
                }
                return Result::Err(e);
            },
        }
        let ghost fin = *self;
        self.events.push(Event::TransferLoan(from, to, currency_id));
        proof {
            assert(fin.positions == self.positions && fin.refs == self.refs
                && fin.total_collateral == self.total_collateral && fin.total_debit
                == self.total_debit);
            assert forall|a: CurrencyId|
                #[trigger] self.total_collateral_of(a) == old(self).total_collateral_of(a) by {
                if a != currency_id {
                    assert(mid.total_collateral_of(a) == old(self).total_collateral_of(a));
                    assert(fin.total_collateral_of(a) == mid.total_collateral_of(a));
                }
            }
            assert forall|a: CurrencyId|
                #[trigger] self.total_debit_of(a) == old(self).total_debit_of(a) by {
                if a != currency_id {
                    assert(mid.total_debit_of(a) == old(self).total_debit_of(a));
                    assert(fin.total_debit_of(a) == mid.total_debit_of(a));
                }
            }
            if from != to {
                let ghost pt = old(self).position_of(currency_id, to);
                assert(mid.position_of(currency_id, to) == (Position {
                    collateral: (pt.collateral + pf.collateral) as u128,
                    debit: (pt.debit + pf.debit) as u128,
                }));
                assert(fin.position_of(currency_id, to) == mid.position_of(currency_id, to));
                assert(mid.position_of(currency_id, from) == old(self).position_of(
                    currency_id,
                    from,
                ));
                assert(fin.position_of(currency_id, from) == Position::spec_zero());
                assert(!fin.positions.contains(currency_id, from));
                assert(self.position_of(currency_id, to) == fin.position_of(currency_id, to));
                assert(self.position_of(currency_id, from) == fin.position_of(currency_id, from));
                assert(self.positions.contains(currency_id, from) == fin.positions.contains(
                    currency_id,
                    from,
                ));
                assert(fin.refs_of(to) == mid.refs_of(to));
                assert(self.refs_of(to) == fin.refs_of(to));
                assert forall|c: AccountId|
                    c != from && c != to implies #[trigger] self.refs_of(c) == old(self).refs_of(
                    c,
                ) by {
                    assert(mid.refs_of(c) == old(self).refs_of(c));
                    assert(fin.refs_of(c) == mid.refs_of(c));
                }
                assert forall|a: CurrencyId, c: AccountId|
                    !(a == currency_id && (c == from || c == to)) implies #[trigger] self
                    .position_of(a, c) == old(self).position_of(a, c) by {
                    assert(mid.position_of(a, c) == old(self).position_of(a, c));
                    assert(fin.position_of(a, c) == mid.position_of(a, c));
                }
                assert forall|a: CurrencyId, c: AccountId|
                    !(a == currency_id && (c == from || c == to)) implies #[trigger] self
                    .positions.contains(a, c) == old(self).positions.contains(a, c) by {
                    assert(mid.positions.contains(a, c) == old(self).positions.contains(a, c));
                    assert(fin.positions.contains(a, c) == mid.positions.contains(a, c));
                }
            } else {
                assert forall|a: CurrencyId, c: AccountId|
                    #[trigger] self.position_of(a, c) == old(self).position_of(a, c) by {
                    if a == currency_id && c == from {
                        assert(mid.position_of(a, c) == (Position {
                            collateral: (pf.collateral + pf.collateral) as u128,
                            debit: (pf.debit + pf.debit) as u128,
                        }));
                    } else {
                        assert(mid.position_of(a, c) == old(self).position_of(a, c));
                        assert(fin.position_of(a, c) == mid.position_of(a, c));
                    }
                }
                assert forall|c: AccountId|
                    #[trigger] self.refs_of(c) == old(self).refs_of(c) by {
                    if c != from {
                        assert(mid.refs_of(c) == old(self).refs_of(c));
                        assert(fin.refs_of(c) == mid.refs_of(c));
                    }
                }
                assert forall|a: CurrencyId, c: AccountId|
                    #[trigger] self.positions.contains(a, c) == old(self).positions.contains(
                    a,
                    c,
                ) by {
                    if !(a == currency_id && c == from) {
                        assert(mid.positions.contains(a, c) == old(self).positions.contains(a, c));
                        assert(fin.positions.contains(a, c) == mid.positions.contains(a, c));
                    } else {
                        assert(fin.positions.contains(a, c) == !(pf.collateral == 0 && pf.debit
                            == 0));
                        assert(old(self).positions.contains(a, c) == !pf.is_zero());
                    }
                }
            }
        }
        Result::Ok(())
    }

    /// The stablecoin value recognized as bad debt when `debit_amount` of
    /// debit is confiscated from a position of `asset`; zero for an asset
    /// with no configured rate.
    pub open spec fn bad_debt_value(self, asset: CurrencyId, debit_amount: int) -> int {
        if self.risk.spec_params(asset) is Some {
            debit_value(self.risk.spec_params(asset).unwrap(), debit_amount)
        } else {
            0
        }
    }

    /// Which result `confiscate_collateral_and_debit` returns: the escrow
    /// must hold the confiscated collateral (checked before anything else),
    /// the amounts must fit the signed range, the position must cover them,
    /// and the treasury counters must not overflow.
    pub open spec fn confiscate_outcome(
        self,
        who: AccountId,
        asset: CurrencyId,
        cc: int,
        dd: int,
    ) -> Result<(), Error> {
        if self.balance_of(asset, ESCROW_ACCOUNT) < cc {
            Result::Err(Error::InsufficientBalance)
        } else if cc > i128::MAX || dd > i128::MAX {
            Result::Err(Error::AmountOverflow)
        } else if self.update_outcome(who, asset, -cc, -dd) is Err {
            self.update_outcome(who, asset, -cc, -dd)
        } else if self.treasury_of(asset) + cc > u128::MAX {
            Result::Err(Error::AmountOverflow)
        } else if self.risk.spec_params(asset) is Some && dd * self.risk.spec_params(
            asset,
        ).unwrap().rate_num > u128::MAX {
            Result::Err(Error::AmountOverflow)
        } else if self.debit_pool + self.bad_debt_value(asset, dd) > u128::MAX {
            Result::Err(Error::AmountOverflow)
        } else {
            Result::Ok(())
        }
    }

    /// Forced liquidation: move `collateral_confiscate` of escrowed
    /// collateral into the recovery pool, recognize the stablecoin value of
    /// `debit_decrease` as bad debt, and shrink the position accordingly
    /// through `update_loan`.  Partial confiscation is supported; the escrow
    /// balance check runs before any ledger mutation.  Emits
    /// `ConfiscateCollateralAndDebit` on success.
    pub fn confiscate_collateral_and_debit(
        &mut self,
        who: AccountId,
        currency_id: CurrencyId,
        collateral_confiscate: Balance,
        debit_decrease: Balance,
    ) -> (r: Result<(), Error>)
        requires
            old(self).wf(),
        ensures
            final(self).wf(),
            r == old(self).confiscate_outcome(
                who,
                currency_id,
                collateral_confiscate as int,
                debit_decrease as int,
            ),
            r is Err ==> *final(self) == *old(self),
            r is Ok ==> loan_updated(
                *old(self),
                *final(self),
                who,
                currency_id,
                -(collateral_confiscate as int),
                -(debit_decrease as int),
            ),
            r is Ok ==> final(self).balance_of(currency_id, ESCROW_ACCOUNT) == old(self).balance_of(currency_id, ESCROW_ACCOUNT) - collateral_confiscate,
            r is Ok ==> forall|a: CurrencyId, c: AccountId|
                !(a == currency_id && c == ESCROW_ACCOUNT) ==> #[trigger] final(self).balance_of(
                    a,
                    c,
                ) == old(self).balance_of(a, c),
            r is Ok ==> final(self).treasury_of(currency_id) == old(self).treasury_of(currency_id)
                + collateral_confiscate,
            r is Ok ==> forall|a: CurrencyId|
                a != currency_id ==> #[trigger] final(self).treasury_of(a) == old(self).treasury_of(
                    a,
                ),
            r is Ok ==> final(self).debit_pool == old(self).debit_pool + old(self).bad_debt_value(
                currency_id,
                debit_decrease as int,
            ),
            r is Ok ==> final(self).events@ == old(self).events@.push(
                Event::ConfiscateCollateralAndDebit(
                    who,
                    currency_id,
                    collateral_confiscate,
                    debit_decrease,
                ),
            ),
            r is Ok ==> final(self).risk == old(self).risk && final(self).block_number == old(self).block_number,
    {
        let esc = self.balances.get(currency_id, ESCROW_ACCOUNT);
        if esc < collateral_confiscate {
            return Result::Err(Error::InsufficientBalance);
        }
        if collateral_confiscate > i128::MAX as u128 || debit_decrease > i128::MAX as u128 {
            return Result::Err(Error::AmountOverflow);
        }
        let c_i = collateral_confiscate as i128;
        let d_i = debit_decrease as i128;
        let p0 = self.positions.get(currency_id, who);
        if p0.collateral < collateral_confiscate {
            return Result::Err(Error::CollateralTooLow);
        }
        if p0.debit < debit_decrease {
            return Result::Err(Error::DebitTooLow);
        }
        let t = self.treasury_collateral.get(currency_id, 0);
        if t > u128::MAX - collateral_confiscate {
            return Result::Err(Error::AmountOverflow);
        }
        let bd: u128 = match self.risk.get(currency_id) {
            Option::Some(rp) => {
                proof {
                    assert(rp.rate_den > 0);
                }
                let v = match debit_decrease.checked_mul(rp.rate_num) {
                    Option::Some(v) => v,
                    Option::None => {
                        return Result::Err(Error::AmountOverflow);
                    },
                };
                v / rp.rate_den
            },
            Option::None => 0,
        };
        if self.debit_pool > u128::MAX - bd {
            return Result::Err(Error::AmountOverflow);
        }
        // all checks have passed: commit
        self.balances.set(currency_id, ESCROW_ACCOUNT, esc - collateral_confiscate);
        self.treasury_collateral.set(currency_id, 0, t + collateral_confiscate);
        self.debit_pool = self.debit_pool + bd;
        let ghost pre_ul = *self;
        let ur = self.update_loan(who, currency_id, -c_i, -d_i);
        let ghost post_ul = *self;
        match ur {
            Result::Ok(()) => {},
            Result::Err(e) => {
                proof {
                    assert(false);
                }
                return Result::Err(e);
            },
        }
        self.events.push(
            Event::ConfiscateCollateralAndDebit(
                who,
                currency_id,
                collateral_confiscate,
                debit_decrease,
            ),
        );
        proof {
            let ghost cc = collateral_confiscate as int;
            let ghost dd = debit_decrease as int;
            assert(loan_updated(pre_ul, post_ul, who, currency_id, -cc, -dd));
            assert(pre_ul.positions == old(self).positions && post_ul.positions == self.positions);
            assert(pre_ul.total_collateral == old(self).total_collateral && post_ul.total_collateral
                == self.total_collateral);
            assert(pre_ul.total_debit == old(self).total_debit && post_ul.total_debit
                == self.total_debit);
            assert(pre_ul.refs == old(self).refs && post_ul.refs == self.refs);
            assert forall|a: CurrencyId, c: AccountId|
                !(a == currency_id && c == who) implies #[trigger] self.position_of(a, c) == old(self).position_of(a, c) by {
                assert(post_ul.position_of(a, c) == pre_ul.position_of(a, c));
            }
            assert forall|a: CurrencyId, c: AccountId|
                !(a == currency_id && c == who) implies #[trigger] self.positions.contains(a, c)
                == old(self).positions.contains(a, c) by {
                assert(post_ul.positions.contains(a, c) == pre_ul.positions.contains(a, c));
            }
            assert forall|a: CurrencyId|
                a != currency_id implies #[trigger] self.total_collateral_of(a) == old(self).total_collateral_of(a) by {
                assert(post_ul.total_collateral_of(a) == pre_ul.total_collateral_of(a));
            }
            assert forall|a: CurrencyId|
                a != currency_id implies #[trigger] self.total_debit_of(a) == old(self).total_debit_of(a) by {
                assert(post_ul.total_debit_of(a) == pre_ul.total_debit_of(a));
            }
            assert forall|c: AccountId|
                c != who implies #[trigger] self.refs_of(c) == old(self).refs_of(c) by {
                assert(post_ul.refs_of(c) == pre_ul.refs_of(c));
            }
            assert(loan_updated(*old(self), *self, who, currency_id, -cc, -dd));
        }
        Result::Ok(())
    }

    /// Pure lookup of a position; absence reads as the zero position.
    pub fn positions(&self, currency_id: CurrencyId, who: AccountId) -> (p: Position)
        ensures
            p == self.position_of(currency_id, who),
    {
        self.positions.get(currency_id, who)
    }

    /// Whether a record for `(currency_id, who)` is actually stored.
    pub fn contains_position(&self, currency_id: CurrencyId, who: AccountId) -> (b: bool)
        ensures
            b == self.positions.contains(currency_id, who),
    {
        self.positions.contains_key(currency_id, who)
    }

    /// The per-asset aggregate position; zero-valued for untouched assets.
    pub fn total_positions(&self, currency_id: CurrencyId) -> (t: Position)
        ensures
            t.collateral == self.total_collateral_of(currency_id),
            t.debit == self.total_debit_of(currency_id),
    {
        Position {
            collateral: self.total_collateral.get(currency_id, 0),
            debit: self.total_debit.get(currency_id, 0),
        }
    }

    /// The free balance of `who` in `currency_id`.
    pub fn free_balance(&self, currency_id: CurrencyId, who: AccountId) -> (b: Balance)
        ensures
            b == self.balance_of(currency_id, who),
    {
        self.balances.get(currency_id, who)
    }

    /// Mint `amount` of `currency` into `who`'s free balance.
    pub fn deposit(&mut self, who: AccountId, currency: CurrencyId, amount: Balance) -> (r: Result<
        (),
        Error,
    >)
        requires
            old(self).wf(),
        ensures
            final(self).wf(),
            r == (if old(self).balance_of(currency, who) + amount > u128::MAX {
                Result::<(), Error>::Err(Error::AmountOverflow)
            } else {
                Result::<(), Error>::Ok(())
            }),
            r is Err ==> *final(self) == *old(self),
            r is Ok ==> final(self).balance_of(currency, who) == old(self).balance_of(
                currency,
                who,
            ) + amount,
            r is Ok ==> forall|a: CurrencyId, c: AccountId|
                !(a == currency && c == who) ==> #[trigger] final(self).balance_of(a, c) == old(self).balance_of(a, c),
            r is Ok ==> final(self).positions == old(self).positions && final(self).total_collateral
                == old(self).total_collateral && final(self).total_debit == old(self).total_debit
                && final(self).refs == old(self).refs && final(self).treasury_collateral == old(self).treasury_collateral && final(self).debit_pool == old(self).debit_pool && final(self).risk == old(self).risk && final(self).events == old(self).events && final(self).block_number == old(self).block_number,
    {
        let b = self.balances.get(currency, who);
        if b > u128::MAX - amount {
            return Result::Err(Error::AmountOverflow);
        }
        self.balances.set(currency, who, b + amount);
        Result::Ok(())
    }

    /// Burn `amount` of `currency` from `who`'s free balance.
    pub fn withdraw(&mut self, who: AccountId, currency: CurrencyId, amount: Balance) -> (r:
        Result<(), Error>)
        requires
            old(self).wf(),
        ensures
            final(self).wf(),
            r == (if old(self).balance_of(currency, who) < amount {
                Result::<(), Error>::Err(Error::InsufficientBalance)
            } else {
                Result::<(), Error>::Ok(())
            }),
            r is Err ==> *final(self) == *old(self),
            r is Ok ==> final(self).balance_of(currency, who) == old(self).balance_of(
                currency,
                who,
            ) - amount,
            r is Ok ==> forall|a: CurrencyId, c: AccountId|
                !(a == currency && c == who) ==> #[trigger] final(self).balance_of(a, c) == old(self).balance_of(a, c),
            r is Ok ==> final(self).positions == old(self).positions && final(self).total_collateral
                == old(self).total_collateral && final(self).total_debit == old(self).total_debit
                && final(self).refs == old(self).refs && final(self).treasury_collateral == old(self).treasury_collateral && final(self).debit_pool == old(self).debit_pool && final(self).risk == old(self).risk && final(self).events == old(self).events && final(self).block_number == old(self).block_number,
    {
        let b = self.balances.get(currency, who);
        if b < amount {
            return Result::Err(Error::InsufficientBalance);
        }
        self.balances.set(currency, who, b - amount);
        Result::Ok(())
    }

    /// Move `amount` of `currency` from `from` to `to`.
    pub fn transfer(
        &mut self,
        from: AccountId,
        to: AccountId,
        currency: CurrencyId,
        amount: Balance,
    ) -> (r: Result<(), Error>)
        requires
            old(self).wf(),
        ensures
            final(self).wf(),
            r == (match old(self).xfer_error(currency, from, to, amount as int) {
                Option::Some(e) => Result::<(), Error>::Err(e),
                Option::None => Result::<(), Error>::Ok(()),
            }),
            r is Err ==> *final(self) == *old(self),
            r is Ok ==> forall|a: CurrencyId, c: AccountId|
                #[trigger] final(self).balance_of(a, c) == old(self).balance_of(a, c) + (if a
                    == currency && c == to {
                    amount as int
                } else {
                    0
                }) - (if a == currency && c == from {
                    amount as int
                } else {
                    0
                }),
            r is Ok ==> final(self).positions == old(self).positions && final(self).total_collateral
                == old(self).total_collateral && final(self).total_debit == old(self).total_debit
                && final(self).refs == old(self).refs && final(self).treasury_collateral == old(self).treasury_collateral && final(self).debit_pool == old(self).debit_pool && final(self).risk == old(self).risk && final(self).events == old(self).events && final(self).block_number == old(self).block_number,
    {
        let b_from = self.balances.get(currency, from);
        if b_from < amount {
            return Result::Err(Error::InsufficientBalance);
        }
        let b_to = self.balances.get(currency, to);
        if from != to && b_to > u128::MAX - amount {
            return Result::Err(Error::AmountOverflow);
        }
        self.balances.set(currency, from, b_from - amount);
        let b_to2 = self.balances.get(currency, to);
        self.balances.set(currency, to, b_to2 + amount);
        Result::Ok(())
    }

    /// The existence reference count of `who`.
    pub fn refs(&self, who: AccountId) -> (n: u128)
        ensures
            n == self.refs_of(who),
    {
        self.refs.get(who, 0)
    }

    /// The recovery pool's collateral of `currency_id`.
    pub fn get_total_collaterals(&self, currency_id: CurrencyId) -> (b: Balance)
        ensures
            b == self.treasury_of(currency_id),
    {
        self.treasury_collateral.get(currency_id, 0)
    }

    /// The recovery pool's recognized bad debt.
    pub fn debit_pool(&self) -> (b: Balance)
        ensures
            b == self.debit_pool,
    {
        self.debit_pool
    }

    /// The escrow account that holds all pledged collateral.
    pub fn account_id() -> (a: AccountId)
        ensures
            a == ESCROW_ACCOUNT,
    {
        ESCROW_ACCOUNT
    }

    pub fn set_block_number(&mut self, n: u64)
        ensures
            final(self).block_number == n,
            final(self).positions == old(self).positions,
            final(self).total_collateral == old(self).total_collateral,
            final(self).total_debit == old(self).total_debit,
            final(self).balances == old(self).balances,
            final(self).refs == old(self).refs,
            final(self).treasury_collateral == old(self).treasury_collateral,
            final(self).debit_pool == old(self).debit_pool,
            final(self).risk == old(self).risk,
            final(self).events == old(self).events,
            old(self).wf() ==> final(self).wf(),
    {
        self.block_number = n;
    }

    /// Whether `e` has been emitted.
    pub fn has_event(&self, e: Event) -> (b: bool)
        ensures
            b == self.events@.contains(e),
    {
        let mut i: usize = 0;
        while i < self.events.len()
            invariant
                i <= self.events@.len(),
                forall|k: int| 0 <= k < i ==> self.events@[k] != e,
            decreases self.events@.len() - i,
        {
            if self.events[i] == e {
                return true;
            }
            i = i + 1;
        }
        false
    }
}

} // verus!
