//! The position store: an explicit keyed container holding every nonzero
//! `Position`, keyed by `(CurrencyId, AccountId)`.
//!
//! A record whose position is `(0, 0)` is never stored: removal is performed
//! inline whenever both fields reach zero, so absence and the zero position
//! behave identically through `spec_get` / `get`.  The store also defines
//! the per-asset sums of all stored collateral and debit, and the per-account
//! count of open positions, which the ledger's invariants are stated over.

use vstd::prelude::*;
use crate::types::{AccountId, CurrencyId, Position};

verus! {

/// One stored record: a nonzero position keyed by `(asset, account)`.
#[derive(Clone, Copy)]
pub struct PosEntry {
    pub asset: CurrencyId,
    pub account: AccountId,
    pub pos: Position,
}

/// The position recorded for `(asset, account)`, or the zero position if
/// there is no record (first match wins).
pub open spec fn find_pos(s: Seq<PosEntry>, asset: CurrencyId, account: AccountId) -> Position
    decreases s.len(),
{
    if s.len() == 0 {
        Position::spec_zero()
    } else if s[0].asset == asset && s[0].account == account {
        s[0].pos
    } else {
        find_pos(s.drop_first(), asset, account)
    }
}

/// Whether some record is keyed by `(asset, account)`.
pub open spec fn has_pos(s: Seq<PosEntry>, asset: CurrencyId, account: AccountId) -> bool
    decreases s.len(),
{
    if s.len() == 0 {
        false
    } else if s[0].asset == asset && s[0].account == account {
        true
    } else {
        has_pos(s.drop_first(), asset, account)
    }
}

/// The sum of the stored collateral of every record of `asset`.
pub open spec fn collateral_sum(s: Seq<PosEntry>, asset: CurrencyId) -> int
    decreases s.len(),
{
    if s.len() == 0 {
        0
    } else {
        (if s[0].asset == asset {
            s[0].pos.collateral as int
        } else {
            0
        }) + collateral_sum(s.drop_first(), asset)
    }
}

/// The sum of the stored debit of every record of `asset`.
pub open spec fn debit_sum(s: Seq<PosEntry>, asset: CurrencyId) -> int
    decreases s.len(),
{
    if s.len() == 0 {
        0
    } else {
        (if s[0].asset == asset {
            s[0].pos.debit as int
        } else {
            0
        }) + debit_sum(s.drop_first(), asset)
    }
}

/// How many records `account` owns, over all assets.
pub open spec fn account_count(s: Seq<PosEntry>, account: AccountId) -> int
    decreases s.len(),
{
    if s.len() == 0 {
        0
    } else {
        (if s[0].account == account {
            1int
        } else {
            0
        }) + account_count(s.drop_first(), account)
    }
}

/// Well-formedness of the raw entries: keys are unique and no stored
/// position is zero.
pub open spec fn wf_entries(s: Seq<PosEntry>) -> bool {
    &&& forall|i: int, j: int| #![trigger s[i], s[j]]
        0 <= i < j < s.len() ==> !(s[i].asset == s[j].asset && s[i].account == s[j].account)
    &&& forall|i: int| 0 <= i < s.len() ==> !(#[trigger] s[i]).pos.is_zero()
}

proof fn lemma_no_match(s: Seq<PosEntry>, asset: CurrencyId, account: AccountId)
    requires
        forall|k: int|
            0 <= k < s.len() ==> !((#[trigger] s[k]).asset == asset && s[k].account == account),
    ensures
        !has_pos(s, asset, account),
        find_pos(s, asset, account) == Position::spec_zero(),
    decreases s.len(),
{
    if s.len() > 0 {
        assert forall|k: int|
            0 <= k < s.drop_first().len() implies !((#[trigger] s.drop_first()[k]).asset == asset
            && s.drop_first()[k].account == account) by {
            assert(s.drop_first()[k] == s[k + 1]);
        }
        lemma_no_match(s.drop_first(), asset, account);
    }
}

proof fn lemma_find_at(s: Seq<PosEntry>, i: int)
    requires
        0 <= i < s.len(),
        forall|k: int|
            0 <= k < i ==> !((#[trigger] s[k]).asset == s[i].asset && s[k].account
                == s[i].account),
    ensures
        has_pos(s, s[i].asset, s[i].account),
        find_pos(s, s[i].asset, s[i].account) == s[i].pos,
    decreases i,
{
    if i > 0 {
        assert(s.drop_first()[i - 1] == s[i]);
        assert forall|k: int|
            0 <= k < i - 1 implies !((#[trigger] s.drop_first()[k]).asset == s[i].asset
            && s.drop_first()[k].account == s[i].account) by {
            assert(s.drop_first()[k] == s[k + 1]);
        }
        lemma_find_at(s.drop_first(), i - 1);
    }
}

proof fn lemma_has_index(s: Seq<PosEntry>, asset: CurrencyId, account: AccountId)
    ensures
        has_pos(s, asset, account) <==> exists|k: int|
            0 <= k < s.len() && (#[trigger] s[k]).asset == asset && s[k].account == account,
    decreases s.len(),
{
    if s.len() > 0 {
        lemma_has_index(s.drop_first(), asset, account);
        if s[0].asset == asset && s[0].account == account {
            assert(0 <= 0 < s.len() && s[0].asset == asset && s[0].account == account);
        } else if has_pos(s, asset, account) {
            let k = choose|k: int|
                0 <= k < s.drop_first().len() && (#[trigger] s.drop_first()[k]).asset == asset
                    && s.drop_first()[k].account == account;
            assert(s[k + 1] == s.drop_first()[k]);
        } else {
            assert forall|k: int|
                0 <= k < s.len() implies !((#[trigger] s[k]).asset == asset && s[k].account
                == account) by {
                if k > 0 {
                    assert(s.drop_first()[k - 1] == s[k]);
                }
            }
        }
    }
}

proof fn lemma_absent_zero(s: Seq<PosEntry>, asset: CurrencyId, account: AccountId)
    requires
        !has_pos(s, asset, account),
    ensures
        find_pos(s, asset, account) == Position::spec_zero(),
{
    lemma_has_index(s, asset, account);
    assert forall|k: int|
        0 <= k < s.len() implies !((#[trigger] s[k]).asset == asset && s[k].account == account) by {
        if s[k].asset == asset && s[k].account == account {
            assert(has_pos(s, asset, account));
        }
    }
    lemma_no_match(s, asset, account);
}

proof fn lemma_push_find(s: Seq<PosEntry>, e: PosEntry, asset: CurrencyId, account: AccountId)
    ensures
        has_pos(s.push(e), asset, account) == (has_pos(s, asset, account) || (e.asset == asset
            && e.account == account)),
        find_pos(s.push(e), asset, account) == (if has_pos(s, asset, account) {
            find_pos(s, asset, account)
        } else if e.asset == asset && e.account == account {
            e.pos
        } else {
            Position::spec_zero()
        }),
    decreases s.len(),
{
    if s.len() == 0 {
        assert(s.push(e).len() == 1);
        assert(s.push(e)[0] == e);
        assert(s.push(e).drop_first() =~= s);
        assert(!has_pos(s, asset, account));
        assert(find_pos(s, asset, account) == Position::spec_zero());
        if e.asset == asset && e.account == account {
            assert(has_pos(s.push(e), asset, account));
            assert(find_pos(s.push(e), asset, account) == e.pos);
        } else {
            assert(find_pos(s.push(e), asset, account) == find_pos(s, asset, account));
        }
    } else {
        assert(s.push(e)[0] == s[0]);
        assert(s.push(e).drop_first() =~= s.drop_first().push(e));
        lemma_push_find(s.drop_first(), e, asset, account);
        if s[0].asset == asset && s[0].account == account {
            assert(has_pos(s, asset, account));
            assert(find_pos(s, asset, account) == s[0].pos);
            assert(find_pos(s.push(e), asset, account) == s[0].pos);
        } else {
            assert(has_pos(s, asset, account) == has_pos(s.drop_first(), asset, account));
            assert(find_pos(s, asset, account) == find_pos(s.drop_first(), asset, account));
            assert(find_pos(s.push(e), asset, account) == find_pos(
                s.drop_first().push(e),
                asset,
                account,
            ));
        }
    }
}

proof fn lemma_push_sums(s: Seq<PosEntry>, e: PosEntry, asset: CurrencyId)
    ensures
        collateral_sum(s.push(e), asset) == collateral_sum(s, asset) + (if e.asset == asset {
            e.pos.collateral as int
        } else {
            0
        }),
        debit_sum(s.push(e), asset) == debit_sum(s, asset) + (if e.asset == asset {
            e.pos.debit as int
        } else {
            0
        }),
    decreases s.len(),
{
    if s.len() == 0 {
        assert(s.push(e)[0] == e);
        assert(s.push(e).drop_first() =~= s);
    } else {
        assert(s.push(e)[0] == s[0]);
        assert(s.push(e).drop_first() =~= s.drop_first().push(e));
        lemma_push_sums(s.drop_first(), e, asset);
    }
}

proof fn lemma_push_count(s: Seq<PosEntry>, e: PosEntry, account: AccountId)
    ensures
        account_count(s.push(e), account) == account_count(s, account) + (if e.account == account {
            1int
        } else {
            0
        }),
    decreases s.len(),
{
    if s.len() == 0 {
        assert(s.push(e)[0] == e);
        assert(s.push(e).drop_first() =~= s);
    } else {
        assert(s.push(e)[0] == s[0]);
        assert(s.push(e).drop_first() =~= s.drop_first().push(e));
        lemma_push_count(s.drop_first(), e, account);
    }
}

proof fn lemma_remove_find(s: Seq<PosEntry>, i: int, asset: CurrencyId, account: AccountId)
    requires
        0 <= i < s.len(),
        !(s[i].asset == asset && s[i].account == account),
    ensures
        has_pos(s.remove(i), asset, account) == has_pos(s, asset, account),
        find_pos(s.remove(i), asset, account) == find_pos(s, asset, account),
    decreases s.len(),
{
    s.remove_ensures(i);
    if i == 0 {
        assert(s.remove(0) =~= s.drop_first());
    } else {
        assert(s.remove(i)[0] == s[0]);
        assert(s.remove(i).drop_first() =~= s.drop_first().remove(i - 1));
        assert(s.drop_first()[i - 1] == s[i]);
        lemma_remove_find(s.drop_first(), i - 1, asset, account);
    }
}

proof fn lemma_remove_only(s: Seq<PosEntry>, i: int)
    requires
        0 <= i < s.len(),
        forall|k: int|
            0 <= k < s.len() && k != i ==> !((#[trigger] s[k]).asset == s[i].asset
                && s[k].account == s[i].account),
    ensures
        !has_pos(s.remove(i), s[i].asset, s[i].account),
        find_pos(s.remove(i), s[i].asset, s[i].account) == Position::spec_zero(),
{
    s.remove_ensures(i);
    assert forall|k: int|
        0 <= k < s.remove(i).len() implies !((#[trigger] s.remove(i)[k]).asset == s[i].asset
        && s.remove(i)[k].account == s[i].account) by {
        if k < i {
            assert(s.remove(i)[k] == s[k]);
        } else {
            assert(s.remove(i)[k] == s[k + 1]);
        }
    }
    lemma_no_match(s.remove(i), s[i].asset, s[i].account);
}

proof fn lemma_remove_sums(s: Seq<PosEntry>, i: int, asset: CurrencyId)
    requires
        0 <= i < s.len(),
    ensures
        collateral_sum(s.remove(i), asset) == collateral_sum(s, asset) - (if s[i].asset == asset {
            s[i].pos.collateral as int
        } else {
            0
        }),
        debit_sum(s.remove(i), asset) == debit_sum(s, asset) - (if s[i].asset == asset {
            s[i].pos.debit as int
        } else {
            0
        }),
    decreases s.len(),
{
    if i == 0 {
        assert(s.remove(0) =~= s.drop_first());
    } else {
        assert(s.remove(i)[0] == s[0]);
        assert(s.remove(i).drop_first() =~= s.drop_first().remove(i - 1));
        assert(s.drop_first()[i - 1] == s[i]);
        lemma_remove_sums(s.drop_first(), i - 1, asset);
    }
}

proof fn lemma_remove_count(s: Seq<PosEntry>, i: int, account: AccountId)
    requires
        0 <= i < s.len(),
    ensures
        account_count(s.remove(i), account) == account_count(s, account) - (if s[i].account
            == account {
            1int
        } else {
            0
        }),
    decreases s.len(),
{
    if i == 0 {
        assert(s.remove(0) =~= s.drop_first());
    } else {
        assert(s.remove(i)[0] == s[0]);
        assert(s.remove(i).drop_first() =~= s.drop_first().remove(i - 1));
        assert(s.drop_first()[i - 1] == s[i]);
        lemma_remove_count(s.drop_first(), i - 1, account);
    }
}

/// Each stored position is bounded by the per-asset sums, and the sums are
/// never negative.
pub proof fn lemma_sum_bounds(s: Seq<PosEntry>, asset: CurrencyId, account: AccountId)
    ensures
        0 <= collateral_sum(s, asset),
        0 <= debit_sum(s, asset),
        find_pos(s, asset, account).collateral <= collateral_sum(s, asset),
        find_pos(s, asset, account).debit <= debit_sum(s, asset),
    decreases s.len(),
{
    if s.len() > 0 {
        lemma_sum_bounds(s.drop_first(), asset, account);
    }
}

/// The per-account count is bounded by the number of records, and is at
/// least one while the account has a record of `asset`.
pub proof fn lemma_count_bounds(s: Seq<PosEntry>, asset: CurrencyId, account: AccountId)
    ensures
        0 <= account_count(s, account) <= s.len(),
        has_pos(s, asset, account) ==> account_count(s, account) >= 1,
    decreases s.len(),
{
    if s.len() > 0 {
        lemma_count_bounds(s.drop_first(), asset, account);
    }
}

proof fn lemma_wf_drop_first(s: Seq<PosEntry>)
    requires
        s.len() > 0,
        wf_entries(s),
    ensures
        wf_entries(s.drop_first()),
{
    assert forall|i: int, j: int|
        0 <= i < j < s.drop_first().len() implies !((#[trigger] s.drop_first()[i]).asset
        == (#[trigger] s.drop_first()[j]).asset && s.drop_first()[i].account
        == s.drop_first()[j].account) by {
        assert(s.drop_first()[i] == s[i + 1]);
        assert(s.drop_first()[j] == s[j + 1]);
    }
    assert forall|i: int| 0 <= i < s.drop_first().len() implies !(#[trigger] s.drop_first()[i])
        .pos.is_zero() by {
        assert(s.drop_first()[i] == s[i + 1]);
    }
}

/// With well-formed entries, a record exists exactly when the looked-up
/// position is nonzero.
pub proof fn lemma_zero_absent(s: Seq<PosEntry>, asset: CurrencyId, account: AccountId)
    requires
        wf_entries(s),
    ensures
        has_pos(s, asset, account) <==> !find_pos(s, asset, account).is_zero(),
    decreases s.len(),
{
    if s.len() > 0 {
        if s[0].asset == asset && s[0].account == account {
            assert(!s[0].pos.is_zero());
        } else {
            lemma_wf_drop_first(s);
            lemma_zero_absent(s.drop_first(), asset, account);
        }
    } else {
        assert(find_pos(s, asset, account).is_zero());
    }
}

proof fn lemma_wf_remove(s: Seq<PosEntry>, i: int)
    requires
        0 <= i < s.len(),
        wf_entries(s),
    ensures
        wf_entries(s.remove(i)),
{
    s.remove_ensures(i);
    assert forall|a: int, b: int|
        0 <= a < b < s.remove(i).len() implies !((#[trigger] s.remove(i)[a]).asset
        == (#[trigger] s.remove(i)[b]).asset && s.remove(i)[a].account
        == s.remove(i)[b].account) by {
        if a < i {
            assert(s.remove(i)[a] == s[a]);
        } else {
            assert(s.remove(i)[a] == s[a + 1]);
        }
        if b < i {
            assert(s.remove(i)[b] == s[b]);
        } else {
            assert(s.remove(i)[b] == s[b + 1]);
        }
    }
    assert forall|a: int| 0 <= a < s.remove(i).len() implies !(#[trigger] s.remove(i)[a])
        .pos.is_zero() by {
        if a < i {
            assert(s.remove(i)[a] == s[a]);
        } else {
            assert(s.remove(i)[a] == s[a + 1]);
        }
    }
}

proof fn lemma_wf_push(s: Seq<PosEntry>, e: PosEntry)
    requires
        wf_entries(s),
        !e.pos.is_zero(),
        forall|k: int|
            0 <= k < s.len() ==> !((#[trigger] s[k]).asset == e.asset && s[k].account
                == e.account),
    ensures
        wf_entries(s.push(e)),
{
    assert forall|i: int, j: int|
        0 <= i < j < s.push(e).len() implies !((#[trigger] s.push(e)[i]).asset
        == (#[trigger] s.push(e)[j]).asset && s.push(e)[i].account == s.push(e)[j].account) by {
        assert(s.push(e)[i] == s[i]);
        if j < s.len() {
            assert(s.push(e)[j] == s[j]);
        } else {
            assert(s.push(e)[j] == e);
        }
    }
    assert forall|i: int| 0 <= i < s.push(e).len() implies !(#[trigger] s.push(e)[i])
        .pos.is_zero() by {
        if i < s.len() {
            assert(s.push(e)[i] == s[i]);
        } else {
            assert(s.push(e)[i] == e);
        }
    }
}

/// The store itself: a vector of keyed records with unique keys and no zero
/// positions.
pub struct PositionStore {
    pub entries: Vec<PosEntry>,
}

impl PositionStore {
    pub open spec fn wf(self) -> bool {
        wf_entries(self.entries@)
    }

    /// The position of `(asset, account)`; the zero position if absent.
    pub open spec fn spec_get(self, asset: CurrencyId, account: AccountId) -> Position {
        find_pos(self.entries@, asset, account)
    }

    /// Whether a record for `(asset, account)` is stored.
    pub open spec fn contains(self, asset: CurrencyId, account: AccountId) -> bool {
        has_pos(self.entries@, asset, account)
    }

    /// The sum over all accounts of stored collateral of `asset`.
    pub open spec fn sum_collateral(self, asset: CurrencyId) -> int {
        collateral_sum(self.entries@, asset)
    }

    /// The sum over all accounts of stored debit of `asset`.
    pub open spec fn sum_debit(self, asset: CurrencyId) -> int {
        debit_sum(self.entries@, asset)
    }

    /// How many open positions `account` has.
    pub open spec fn count_for(self, account: AccountId) -> int {
        account_count(self.entries@, account)
    }

    pub fn new() -> (st: Self)
        ensures
            st.wf(),
            st.entries@.len() == 0,
            forall|a: CurrencyId, c: AccountId|
                #[trigger] st.spec_get(a, c) == Position::spec_zero() && !st.contains(a, c),
            forall|a: CurrencyId|
                #[trigger] st.sum_collateral(a) == 0 && #[trigger] st.sum_debit(a) == 0,
            forall|c: AccountId| #[trigger] st.count_for(c) == 0,
    {
        let st = PositionStore { entries: Vec::new() };
        proof {
            assert forall|a: CurrencyId, c: AccountId|
                #[trigger] st.spec_get(a, c) == Position::spec_zero() && !st.contains(a, c) by {
                lemma_no_match(st.entries@, a, c);
            }
        }
        st
    }

    fn index_of(&self, asset: CurrencyId, account: AccountId) -> (r: Option<usize>)
        ensures
            match r {
                Option::Some(i) => i < self.entries@.len() && self.entries@[i as int].asset
                    == asset && self.entries@[i as int].account == account && (forall|k: int|
                    0 <= k < i ==> !((#[trigger] self.entries@[k]).asset == asset
                        && self.entries@[k].account == account)),
                Option::None => forall|k: int|
                    0 <= k < self.entries@.len() ==> !((#[trigger] self.entries@[k]).asset
                        == asset && self.entries@[k].account == account),
            },
    {
        let mut i: usize = 0;
        while i < self.entries.len()
            invariant
                i <= self.entries@.len(),
                forall|k: int|
                    0 <= k < i ==> !((#[trigger] self.entries@[k]).asset == asset
                        && self.entries@[k].account == account),
            decreases self.entries@.len() - i,
        {
            let e = self.entries[i];
            if e.asset == asset && e.account == account {
                return Option::Some(i);
            }
            i = i + 1;
        }
        Option::None
    }

    /// Pure lookup: the zero position stands for total absence.
    pub fn get(&self, asset: CurrencyId, account: AccountId) -> (p: Position)
        ensures
            p == self.spec_get(asset, account),
    {
        match self.index_of(asset, account) {
            Option::Some(i) => {
                proof {
                    lemma_find_at(self.entries@, i as int);
                }
                self.entries[i].pos
            },
            Option::None => {
                proof {
                    lemma_no_match(self.entries@, asset, account);
                }
                Position::zero()
            },
        }
    }

    pub fn contains_key(&self, asset: CurrencyId, account: AccountId) -> (b: bool)
        ensures
            b == self.contains(asset, account),
    {
        match self.index_of(asset, account) {
            Option::Some(i) => {
                proof {
                    lemma_find_at(self.entries@, i as int);
                }
                true
            },
            Option::None => {
                proof {
                    lemma_no_match(self.entries@, asset, account);
                }
                false
            },
        }
    }

    /// Write the position of `(asset, account)`, removing the record when it
    /// reaches zero and creating it when it leaves zero.
    #[verifier::rlimit(60)]
    pub fn set(&mut self, asset: CurrencyId, account: AccountId, p: Position)
        requires
            old(self).wf(),
        ensures
            final(self).wf(),
            final(self).spec_get(asset, account) == p,
            final(self).contains(asset, account) == !p.is_zero(),
            forall|a: CurrencyId, c: AccountId|
                !(a == asset && c == account) ==> #[trigger] final(self).spec_get(a, c)
                    == old(self).spec_get(a, c),
            forall|a: CurrencyId, c: AccountId|
                !(a == asset && c == account) ==> #[trigger] final(self).contains(a, c)
                    == old(self).contains(a, c),
            forall|a: CurrencyId|
                #[trigger] final(self).sum_collateral(a) == old(self).sum_collateral(a) + (if a
                    == asset {
                    p.collateral - old(self).spec_get(asset, account).collateral
                } else {
                    0
                }),
            forall|a: CurrencyId|
                #[trigger] final(self).sum_debit(a) == old(self).sum_debit(a) + (if a == asset {
                    p.debit - old(self).spec_get(asset, account).debit
                } else {
                    0
                }),
            forall|c: AccountId|
                #[trigger] final(self).count_for(c) == old(self).count_for(c) + (if c == account {
                    (if p.is_zero() {
                        0int
                    } else {
                        1
                    }) - (if old(self).contains(asset, account) {
                        1int
                    } else {
                        0
                    })
                } else {
                    0
                }),
    {
        let ghost s0 = self.entries@;
        let nonzero = !(p.collateral == 0 && p.debit == 0);
        match self.index_of(asset, account) {
            Option::Some(i) => {
                proof {
                    lemma_find_at(s0, i as int);
                    lemma_wf_remove(s0, i as int);
                    assert forall|k: int|
                        0 <= k < s0.len() && k != i as int implies !((#[trigger] s0[k]).asset
                        == s0[i as int].asset && s0[k].account == s0[i as int].account) by {
                        if k < i as int {
                        } else {
                            assert(!(s0[i as int].asset == s0[k].asset && s0[i as int].account
                                == s0[k].account));
                        }
                    }
                    lemma_remove_only(s0, i as int);
                }
                let _removed = self.entries.remove(i);
                let ghost s1 = self.entries@;
                if nonzero {
                    let e = PosEntry { asset, account, pos: p };
                    self.entries.push(e);
                    proof {
                        assert forall|k: int|
                            0 <= k < s1.len() implies !((#[trigger] s1[k]).asset == e.asset
                            && s1[k].account == e.account) by {
                            if s1[k].asset == asset && s1[k].account == account {
                                lemma_has_index(s1, asset, account);
                            }
                        }
                        lemma_wf_push(s1, e);
                        lemma_push_find(s1, e, asset, account);
                        assert forall|a: CurrencyId, c: AccountId|
                            !(a == asset && c == account) implies #[trigger] self.spec_get(a, c)
                            == old(self).spec_get(a, c) by {
                            lemma_remove_find(s0, i as int, a, c);
                            lemma_push_find(s1, e, a, c);
                            if !has_pos(s0, a, c) {
                                lemma_absent_zero(s0, a, c);
                            }
                        }
                        assert forall|a: CurrencyId, c: AccountId|
                            !(a == asset && c == account) implies #[trigger] self.contains(a, c)
                            == old(self).contains(a, c) by {
                            lemma_remove_find(s0, i as int, a, c);
                            lemma_push_find(s1, e, a, c);
                        }
                        assert forall|a: CurrencyId|
                            #[trigger] self.sum_collateral(a) == old(self).sum_collateral(a) + (
                        if a == asset {
                            p.collateral - old(self).spec_get(asset, account).collateral
                        } else {
                            0
                        }) by {
                            lemma_remove_sums(s0, i as int, a);
                            lemma_push_sums(s1, e, a);
                        }
                        assert forall|a: CurrencyId|
                            #[trigger] self.sum_debit(a) == old(self).sum_debit(a) + (if a
                            == asset {
                            p.debit - old(self).spec_get(asset, account).debit
                        } else {
                            0
                        }) by {
                            lemma_remove_sums(s0, i as int, a);
                            lemma_push_sums(s1, e, a);
                        }
                        assert forall|c: AccountId|
                            #[trigger] self.count_for(c) == old(self).count_for(c) + (if c
                            == account {
                            (if p.is_zero() {
                                0int
                            } else {
                                1
                            }) - (if old(self).contains(asset, account) {
                                1int
                            } else {
                                0
                            })
                        } else {
                            0
                        }) by {
                            lemma_remove_count(s0, i as int, c);
                            lemma_push_count(s1, e, c);
                        }
                    }
                } else {
                    proof {
                        assert(p == Position::spec_zero());
                        assert forall|a: CurrencyId, c: AccountId|
                            !(a == asset && c == account) implies #[trigger] self.spec_get(a, c)
                            == old(self).spec_get(a, c) by {
                            lemma_remove_find(s0, i as int, a, c);
                        }
                        assert forall|a: CurrencyId, c: AccountId|
                            !(a == asset && c == account) implies #[trigger] self.contains(a, c)
                            == old(self).contains(a, c) by {
                            lemma_remove_find(s0, i as int, a, c);
                        }
                        assert forall|a: CurrencyId|
                            #[trigger] self.sum_collateral(a) == old(self).sum_collateral(a) + (
                        if a == asset {
                            p.collateral - old(self).spec_get(asset, account).collateral
                        } else {
                            0
                        }) by {
                            lemma_remove_sums(s0, i as int, a);
                        }
                        assert forall|a: CurrencyId|
                            #[trigger] self.sum_debit(a) == old(self).sum_debit(a) + (if a
                            == asset {
                            p.debit - old(self).spec_get(asset, account).debit
                        } else {
                            0
                        }) by {
                            lemma_remove_sums(s0, i as int, a);
                        }
                        assert forall|c: AccountId|
                            #[trigger] self.count_for(c) == old(self).count_for(c) + (if c
                            == account {
                            (if p.is_zero() {
                                0int
                            } else {
                                1
                            }) - (if old(self).contains(asset, account) {
                                1int
                            } else {
                                0
                            })
                        } else {
                            0
                        }) by {
                            lemma_remove_count(s0, i as int, c);
                        }
                    }
                }
            },
            Option::None => {
                proof {
                    lemma_no_match(s0, asset, account);
                }
                if nonzero {
                    let e = PosEntry { asset, account, pos: p };
                    self.entries.push(e);
                    proof {
                        lemma_wf_push(s0, e);
                        lemma_push_find(s0, e, asset, account);
                        assert forall|a: CurrencyId, c: AccountId|
                            !(a == asset && c == account) implies #[trigger] self.spec_get(a, c)
                            == old(self).spec_get(a, c) by {
                            lemma_push_find(s0, e, a, c);
                            if !has_pos(s0, a, c) {
                                lemma_absent_zero(s0, a, c);
                            }
                        }
                        assert forall|a: CurrencyId, c: AccountId|
                            !(a == asset && c == account) implies #[trigger] self.contains(a, c)
                            == old(self).contains(a, c) by {
                            lemma_push_find(s0, e, a, c);
                        }
                        assert forall|a: CurrencyId|
                            #[trigger] self.sum_collateral(a) == old(self).sum_collateral(a) + (
                        if a == asset {
                            p.collateral - old(self).spec_get(asset, account).collateral
                        } else {
                            0
                        }) by {
                            lemma_push_sums(s0, e, a);
                        }
                        assert forall|a: CurrencyId|
                            #[trigger] self.sum_debit(a) == old(self).sum_debit(a) + (if a
                            == asset {
                            p.debit - old(self).spec_get(asset, account).debit
                        } else {
                            0
                        }) by {
                            lemma_push_sums(s0, e, a);
                        }
                        assert forall|c: AccountId|
                            #[trigger] self.count_for(c) == old(self).count_for(c) + (if c
                            == account {
                            (if p.is_zero() {
                                0int
                            } else {
                                1
                            }) - (if old(self).contains(asset, account) {
                                1int
                            } else {
                                0
                            })
                        } else {
                            0
                        }) by {
                            lemma_push_count(s0, e, c);
                        }
                    }
                } else {
                    proof {
                        assert(p == Position::spec_zero());
                    }
                }
            },
        }
    }
}

} // verus!
