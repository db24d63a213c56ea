//! The risk configuration: per-asset `RiskParams`, looked up by asset.
//! An asset with no entry is not an accepted collateral asset.

use vstd::prelude::*;
use crate::types::{CurrencyId, RiskParams};

verus! {

/// One configured asset.
#[derive(Clone, Copy)]
pub struct RiskEntry {
    pub asset: CurrencyId,
    pub params: RiskParams,
}

/// The parameters configured for `asset`, if any (first match wins).
pub open spec fn find_params(s: Seq<RiskEntry>, asset: CurrencyId) -> Option<RiskParams>
    decreases s.len(),
{
    if s.len() == 0 {
        Option::None
    } else if s[0].asset == asset {
        Option::Some(s[0].params)
    } else {
        find_params(s.drop_first(), asset)
    }
}

proof fn lemma_risk_no_match(s: Seq<RiskEntry>, asset: CurrencyId)
    requires
        forall|k: int| 0 <= k < s.len() ==> (#[trigger] s[k]).asset != asset,
    ensures
        find_params(s, asset) == Option::<RiskParams>::None,
    decreases s.len(),
{
    if s.len() > 0 {
        assert forall|k: int|
            0 <= k < s.drop_first().len() implies (#[trigger] s.drop_first()[k]).asset
            != asset by {
            assert(s.drop_first()[k] == s[k + 1]);
        }
        lemma_risk_no_match(s.drop_first(), asset);
    }
}

proof fn lemma_risk_find_at(s: Seq<RiskEntry>, i: int)
    requires
        0 <= i < s.len(),
        forall|k: int| 0 <= k < i ==> (#[trigger] s[k]).asset != s[i].asset,
    ensures
        find_params(s, s[i].asset) == Option::Some(s[i].params),
    decreases i,
{
    if i > 0 {
        assert(s.drop_first()[i - 1] == s[i]);
        assert forall|k: int|
            0 <= k < i - 1 implies (#[trigger] s.drop_first()[k]).asset != s[i].asset by {
            assert(s.drop_first()[k] == s[k + 1]);
        }
        lemma_risk_find_at(s.drop_first(), i - 1);
    }
}

proof fn lemma_risk_push_find(s: Seq<RiskEntry>, e: RiskEntry, asset: CurrencyId)
    ensures
        find_params(s.push(e), asset) == (if find_params(s, asset) is Some {
            find_params(s, asset)
        } else if e.asset == asset {
            Option::Some(e.params)
        } else {
            Option::<RiskParams>::None
        }),
    decreases s.len(),
{
    if s.len() == 0 {
        assert(s.push(e).len() == 1);
        assert(s.push(e)[0] == e);
        assert(s.push(e).drop_first() =~= s);
    } else {
        assert(s.push(e)[0] == s[0]);
        assert(s.push(e).drop_first() =~= s.drop_first().push(e));
        lemma_risk_push_find(s.drop_first(), e, asset);
    }
}

/// The configuration store.
pub struct RiskMap {
    pub entries: Vec<RiskEntry>,
}

impl RiskMap {
    /// The parameters configured for `asset`, if any.
    pub open spec fn spec_params(self, asset: CurrencyId) -> Option<RiskParams> {
        find_params(self.entries@, asset)
    }

    pub fn new() -> (m: Self)
        ensures
            m.entries@.len() == 0,
            forall|a: CurrencyId| #[trigger] m.spec_params(a) == Option::<RiskParams>::None,
    {
        let m = RiskMap { entries: Vec::new() };
        proof {
            assert forall|a: CurrencyId|
                #[trigger] m.spec_params(a) == Option::<RiskParams>::None by {
                lemma_risk_no_match(m.entries@, a);
            }
        }
        m
    }

    pub fn get(&self, asset: CurrencyId) -> (r: Option<RiskParams>)
        ensures
            r == self.spec_params(asset),
    {
        let mut i: usize = 0;
        while i < self.entries.len()
            invariant
                i <= self.entries@.len(),
                forall|k: int| 0 <= k < i ==> (#[trigger] self.entries@[k]).asset != asset,
            decreases self.entries@.len() - i,
        {
            let e = self.entries[i];
            if e.asset == asset {
                proof {
                    lemma_risk_find_at(self.entries@, i as int);
                }
                return Option::Some(e.params);
            }
            i = i + 1;
        }
        proof {
            lemma_risk_no_match(self.entries@, asset);
        }
        Option::None
    }

    /// Configure a new asset; the asset must not be configured yet.
    pub fn insert(&mut self, asset: CurrencyId, params: RiskParams)
        requires
            old(self).spec_params(asset) == Option::<RiskParams>::None,
        ensures
            final(self).spec_params(asset) == Option::Some(params),
            forall|a: CurrencyId|
                a != asset ==> #[trigger] final(self).spec_params(a) == old(self).spec_params(a),
    {
        let ghost s0 = self.entries@;
        let e = RiskEntry { asset, params };
        self.entries.push(e);
        proof {
            lemma_risk_push_find(s0, e, asset);
            assert forall|a: CurrencyId|
                a != asset implies #[trigger] self.spec_params(a) == old(self).spec_params(a) by {
                lemma_risk_push_find(s0, e, a);
            }
        }
    }
}

} // verus!
