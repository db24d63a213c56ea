//! A numeric ledger map: `(u64, u64)` keys to `u128` values, with unique
//! keys and a default of zero for absent keys.  It backs the free-balance
//! ledger (keyed by currency and account) and, with a constant second key,
//! the per-asset totals, the treasury collaterals and the reference counts.

use vstd::prelude::*;

verus! {

/// One stored value, keyed by a pair of identifiers.
#[derive(Clone, Copy)]
pub struct NumEntry {
    pub key1: u64,
    pub key2: u64,
    pub val: u128,
}

/// The value recorded for `(k1, k2)`, or zero if there is no record
/// (first match wins).
pub open spec fn find_val(s: Seq<NumEntry>, k1: u64, k2: u64) -> u128
    decreases s.len(),
{
    if s.len() == 0 {
        0
    } else if s[0].key1 == k1 && s[0].key2 == k2 {
        s[0].val
    } else {
        find_val(s.drop_first(), k1, k2)
    }
}

/// Whether some record is keyed by `(k1, k2)`.
pub open spec fn has_val(s: Seq<NumEntry>, k1: u64, k2: u64) -> bool
    decreases s.len(),
{
    if s.len() == 0 {
        false
    } else if s[0].key1 == k1 && s[0].key2 == k2 {
        true
    } else {
        has_val(s.drop_first(), k1, k2)
    }
}

/// Well-formedness: keys are unique.
pub open spec fn wf_num_entries(s: Seq<NumEntry>) -> bool {
    forall|i: int, j: int| #![trigger s[i], s[j]]
        0 <= i < j < s.len() ==> !(s[i].key1 == s[j].key1 && s[i].key2 == s[j].key2)
}

proof fn lemma_num_no_match(s: Seq<NumEntry>, k1: u64, k2: u64)
    requires
        forall|k: int| 0 <= k < s.len() ==> !((#[trigger] s[k]).key1 == k1 && s[k].key2 == k2),
    ensures
        !has_val(s, k1, k2),
        find_val(s, k1, k2) == 0,
    decreases s.len(),
{
    if s.len() > 0 {
        assert forall|k: int|
            0 <= k < s.drop_first().len() implies !((#[trigger] s.drop_first()[k]).key1 == k1
            && s.drop_first()[k].key2 == k2) by {
            assert(s.drop_first()[k] == s[k + 1]);
        }
        lemma_num_no_match(s.drop_first(), k1, k2);
    }
}

proof fn lemma_num_find_at(s: Seq<NumEntry>, i: int)
    requires
        0 <= i < s.len(),
        forall|k: int|
            0 <= k < i ==> !((#[trigger] s[k]).key1 == s[i].key1 && s[k].key2 == s[i].key2),
    ensures
        has_val(s, s[i].key1, s[i].key2),
        find_val(s, s[i].key1, s[i].key2) == s[i].val,
    decreases i,
{
    if i > 0 {
        assert(s.drop_first()[i - 1] == s[i]);
        assert forall|k: int|
            0 <= k < i - 1 implies !((#[trigger] s.drop_first()[k]).key1 == s[i].key1
            && s.drop_first()[k].key2 == s[i].key2) by {
            assert(s.drop_first()[k] == s[k + 1]);
        }
        lemma_num_find_at(s.drop_first(), i - 1);
    }
}

proof fn lemma_num_push_find(s: Seq<NumEntry>, e: NumEntry, k1: u64, k2: u64)
    ensures
        has_val(s.push(e), k1, k2) == (has_val(s, k1, k2) || (e.key1 == k1 && e.key2 == k2)),
        find_val(s.push(e), k1, k2) == (if has_val(s, k1, k2) {
            find_val(s, k1, k2)
        } else if e.key1 == k1 && e.key2 == k2 {
            e.val
        } else {
            0
        }),
    decreases s.len(),
{
    if s.len() == 0 {
        assert(s.push(e).len() == 1);
        assert(s.push(e)[0] == e);
        assert(s.push(e).drop_first() =~= s);
        assert(!has_val(s, k1, k2));
        assert(find_val(s, k1, k2) == 0);
    } else {
        assert(s.push(e)[0] == s[0]);
        assert(s.push(e).drop_first() =~= s.drop_first().push(e));
        lemma_num_push_find(s.drop_first(), e, k1, k2);
        if !(s[0].key1 == k1 && s[0].key2 == k2) {
            assert(has_val(s, k1, k2) == has_val(s.drop_first(), k1, k2));
            assert(find_val(s, k1, k2) == find_val(s.drop_first(), k1, k2));
            assert(find_val(s.push(e), k1, k2) == find_val(s.drop_first().push(e), k1, k2));
        }
    }
}

proof fn lemma_num_remove_find(s: Seq<NumEntry>, i: int, k1: u64, k2: u64)
    requires
        0 <= i < s.len(),
        !(s[i].key1 == k1 && s[i].key2 == k2),
    ensures
        has_val(s.remove(i), k1, k2) == has_val(s, k1, k2),
        find_val(s.remove(i), k1, k2) == find_val(s, k1, k2),
    decreases s.len(),
{
    s.remove_ensures(i);
    if i == 0 {
        assert(s.remove(0) =~= s.drop_first());
    } else {
        assert(s.remove(i)[0] == s[0]);
        assert(s.remove(i).drop_first() =~= s.drop_first().remove(i - 1));
        assert(s.drop_first()[i - 1] == s[i]);
        lemma_num_remove_find(s.drop_first(), i - 1, k1, k2);
    }
}

proof fn lemma_num_remove_only(s: Seq<NumEntry>, i: int)
    requires
        0 <= i < s.len(),
        forall|k: int|
            0 <= k < s.len() && k != i ==> !((#[trigger] s[k]).key1 == s[i].key1 && s[k].key2
                == s[i].key2),
    ensures
        !has_val(s.remove(i), s[i].key1, s[i].key2),
        find_val(s.remove(i), s[i].key1, s[i].key2) == 0,
{
    s.remove_ensures(i);
    assert forall|k: int|
        0 <= k < s.remove(i).len() implies !((#[trigger] s.remove(i)[k]).key1 == s[i].key1
        && s.remove(i)[k].key2 == s[i].key2) by {
        if k < i {
            assert(s.remove(i)[k] == s[k]);
        } else {
            assert(s.remove(i)[k] == s[k + 1]);
        }
    }
    lemma_num_no_match(s.remove(i), s[i].key1, s[i].key2);
}

proof fn lemma_num_wf_remove(s: Seq<NumEntry>, i: int)
    requires
        0 <= i < s.len(),
        wf_num_entries(s),
    ensures
        wf_num_entries(s.remove(i)),
{
    s.remove_ensures(i);
    assert forall|a: int, b: int|
        0 <= a < b < s.remove(i).len() implies !((#[trigger] s.remove(i)[a]).key1
        == (#[trigger] s.remove(i)[b]).key1 && s.remove(i)[a].key2 == s.remove(i)[b].key2) by {
        if a < i {
            assert(s.remove(i)[a] == s[a]);
        } else {
            assert(s.remove(i)[a] == s[a + 1]);
        }
        if b < i {
            assert(s.remove(i)[b] == s[b]);
        } else {
            assert(s.remove(i)[b] == s[b + 1]);
        }
    }
}

proof fn lemma_num_wf_push(s: Seq<NumEntry>, e: NumEntry)
    requires
        wf_num_entries(s),
        forall|k: int| 0 <= k < s.len() ==> !((#[trigger] s[k]).key1 == e.key1 && s[k].key2
            == e.key2),
    ensures
        wf_num_entries(s.push(e)),
{
    assert forall|i: int, j: int|
        0 <= i < j < s.push(e).len() implies !((#[trigger] s.push(e)[i]).key1
        == (#[trigger] s.push(e)[j]).key1 && s.push(e)[i].key2 == s.push(e)[j].key2) by {
        assert(s.push(e)[i] == s[i]);
        if j < s.len() {
            assert(s.push(e)[j] == s[j]);
        } else {
            assert(s.push(e)[j] == e);
        }
    }
}

/// The map itself.
pub struct NumMap {
    pub entries: Vec<NumEntry>,
}

impl NumMap {
    pub open spec fn wf(self) -> bool {
        wf_num_entries(self.entries@)
    }

    /// The value recorded for `(k1, k2)`; zero if absent.
    pub open spec fn spec_get(self, k1: u64, k2: u64) -> u128 {
        find_val(self.entries@, k1, k2)
    }

    pub fn new() -> (m: Self)
        ensures
            m.wf(),
            m.entries@.len() == 0,
            forall|a: u64, b: u64| #[trigger] m.spec_get(a, b) == 0,
    {
        let m = NumMap { entries: Vec::new() };
        proof {
            assert forall|a: u64, b: u64| #[trigger] m.spec_get(a, b) == 0 by {
                lemma_num_no_match(m.entries@, a, b);
            }
        }
        m
    }

    fn index_of(&self, k1: u64, k2: u64) -> (r: Option<usize>)
        ensures
            match r {
                Option::Some(i) => i < self.entries@.len() && self.entries@[i as int].key1 == k1
                    && self.entries@[i as int].key2 == k2 && (forall|k: int|
                    0 <= k < i ==> !((#[trigger] self.entries@[k]).key1 == k1
                        && self.entries@[k].key2 == k2)),
                Option::None => forall|k: int|
                    0 <= k < self.entries@.len() ==> !((#[trigger] self.entries@[k]).key1 == k1
                        && self.entries@[k].key2 == k2),
            },
    {
        let mut i: usize = 0;
        while i < self.entries.len()
            invariant
                i <= self.entries@.len(),
                forall|k: int|
                    0 <= k < i ==> !((#[trigger] self.entries@[k]).key1 == k1
                        && self.entries@[k].key2 == k2),
            decreases self.entries@.len() - i,
        {
            let e = self.entries[i];
            if e.key1 == k1 && e.key2 == k2 {
                return Option::Some(i);
            }
            i = i + 1;
        }
        Option::None
    }

    /// Pure lookup; zero stands for total absence.
    pub fn get(&self, k1: u64, k2: u64) -> (v: u128)
        ensures
            v == self.spec_get(k1, k2),
    {
        match self.index_of(k1, k2) {
            Option::Some(i) => {
                proof {
                    lemma_num_find_at(self.entries@, i as int);
                }
                self.entries[i].val
            },
            Option::None => {
                proof {
                    lemma_num_no_match(self.entries@, k1, k2);
                }
                0
            },
        }
    }

    /// Record `v` as the value of `(k1, k2)`.
    pub fn set(&mut self, k1: u64, k2: u64, v: u128)
        requires
            old(self).wf(),
        ensures
            final(self).wf(),
            final(self).spec_get(k1, k2) == v,
            forall|a: u64, b: u64|
                !(a == k1 && b == k2) ==> #[trigger] final(self).spec_get(a, b) == old(self)
                    .spec_get(a, b),
    {
        let ghost s0 = self.entries@;
        let e = NumEntry { key1: k1, key2: k2, val: v };
        match self.index_of(k1, k2) {
            Option::Some(i) => {
                proof {
                    lemma_num_wf_remove(s0, i as int);
                    assert forall|k: int|
                        0 <= k < s0.len() && k != i as int implies !((#[trigger] s0[k]).key1
                        == s0[i as int].key1 && s0[k].key2 == s0[i as int].key2) by {
                        if k < i as int {
                        } else {
                            assert(!(s0[i as int].key1 == s0[k].key1 && s0[i as int].key2
                                == s0[k].key2));
                        }
                    }
                    lemma_num_remove_only(s0, i as int);
                }
                let _removed = self.entries.remove(i);
                let ghost s1 = self.entries@;
                self.entries.push(e);
                proof {
                    assert forall|k: int|
                        0 <= k < s1.len() implies !((#[trigger] s1[k]).key1 == e.key1
                        && s1[k].key2 == e.key2) by {
                        if s1[k].key1 == k1 && s1[k].key2 == k2 {
                            lemma_num_find_at_exists(s1, k);
                        }
                    }
                    lemma_num_wf_push(s1, e);
                    lemma_num_push_find(s1, e, k1, k2);
                    assert forall|a: u64, b: u64|
                        !(a == k1 && b == k2) implies #[trigger] self.spec_get(a, b) == old(self)
                        .spec_get(a, b) by {
                        lemma_num_remove_find(s0, i as int, a, b);
                        lemma_num_push_find(s1, e, a, b);
                        if !has_val(s0, a, b) {
                            lemma_num_absent_zero(s0, a, b);
                        }
                    }
                }
            },
            Option::None => {
                proof {
                    lemma_num_no_match(s0, k1, k2);
                }
                self.entries.push(e);
                proof {
                    lemma_num_wf_push(s0, e);
                    lemma_num_push_find(s0, e, k1, k2);
                    assert forall|a: u64, b: u64|
                        !(a == k1 && b == k2) implies #[trigger] self.spec_get(a, b) == old(self)
                        .spec_get(a, b) by {
                        lemma_num_push_find(s0, e, a, b);
                        if !has_val(s0, a, b) {
                            lemma_num_absent_zero(s0, a, b);
                        }
                    }
                }
            },
        }
    }
}

proof fn lemma_num_find_at_exists(s: Seq<NumEntry>, k: int)
    requires
        0 <= k < s.len(),
    ensures
        has_val(s, s[k].key1, s[k].key2),
    decreases s.len(),
{
    if k > 0 {
        assert(s.drop_first()[k - 1] == s[k]);
        lemma_num_find_at_exists(s.drop_first(), k - 1);
    }
}

proof fn lemma_num_absent_zero(s: Seq<NumEntry>, k1: u64, k2: u64)
    requires
        !has_val(s, k1, k2),
    ensures
        find_val(s, k1, k2) == 0,
{
    assert forall|k: int|
        0 <= k < s.len() implies !((#[trigger] s[k]).key1 == k1 && s[k].key2 == k2) by {
        if s[k].key1 == k1 && s[k].key2 == k2 {
            lemma_num_find_at_exists(s, k);
        }
    }
    lemma_num_no_match(s, k1, k2);
}

} // verus!
