//! The filter engine and its configured thresholds.
//!
//! A fund passes exactly when its premium rate lies strictly above the
//! configured threshold and its purchase limit does not exceed the
//! configured limit: equal premium excludes, equal limit includes. The
//! output keeps the input's order.

use vstd::prelude::*;
use crate::decimal::{dec_eq, dec_gt, Dec};
use crate::fund::Fund;

verus! {

/// The two configured thresholds.
pub struct FilterRule {
    pub premium_threshold: Dec,
    pub purchase_limit: u64,
}

impl FilterRule {
    /// Within the range the premium-rate backend supports.
    pub open spec fn wf(self) -> bool {
        self.premium_threshold.wf()
    }
}

/// The run's configuration, read once at startup and immutable thereafter.
pub struct Config {
    pub filter_rule: FilterRule,
}

/// The acceptance predicate: premium strictly above the threshold, limit at
/// or below the configured limit.
pub open spec fn passes(f: Fund, rule: FilterRule) -> bool {
    dec_gt(f.premium_rate, rule.premium_threshold) && f.purchase_limit <= rule.purchase_limit
}

/// The funds that pass, in their input order.
pub open spec fn spec_filter(funds: Seq<Fund>, rule: FilterRule) -> Seq<Fund>
    decreases funds.len(),
{
    if funds.len() == 0 {
        Seq::empty()
    } else if passes(funds.last(), rule) {
        spec_filter(funds.drop_last(), rule).push(funds.last())
    } else {
        spec_filter(funds.drop_last(), rule)
    }
}

/// Selects the funds the configured rule accepts, keeping their order.
pub fn filter_funds<'a>(funds: &'a [Fund], rule: &FilterRule) -> (r: Vec<&'a Fund>)
    requires
        rule.wf(),
        forall|i: int| 0 <= i < funds@.len() ==> (#[trigger] funds@[i]).wf(),
    ensures
        r@.map_values(|f: &Fund| *f) == spec_filter(funds@, *rule),
{
    let mut r: Vec<&'a Fund> = Vec::new();
    let n = funds.len();
    let mut i: usize = 0;
    proof {
        assert(funds@.take(0) =~= Seq::<Fund>::empty());
    }
    while i < n
        invariant
            i <= n,
            n == funds@.len(),
            rule.wf(),
            forall|x: int| 0 <= x < funds@.len() ==> (#[trigger] funds@[x]).wf(),
            r@.map_values(|f: &Fund| *f) == spec_filter(funds@.take(i as int), *rule),
        decreases n - i,
    {
        let f = vstd::slice::slice_index_get(funds, i);
        proof {
            assert(funds@.take(i + 1).drop_last() =~= funds@.take(i as int));
            assert(funds@.take(i + 1).last() == funds@[i as int]);
        }
        let keep = f.premium_rate.exceeds(&rule.premium_threshold) && f.purchase_limit
            <= rule.purchase_limit;
        if keep {
            let ghost r_pre = r@;
            r.push(f);
            proof {
                assert(r@.map_values(|f: &Fund| *f) =~= r_pre.map_values(|f: &Fund| *f).push(
                    funds@[i as int],
                ));
            }
        }
        i += 1;
    }
    proof {
        assert(funds@.take(n as int) =~= funds@);
    }
    r
}

/// The acceptance boundary is exact: a premium rate numerically equal to the
/// threshold is excluded, while — the premium passing — a purchase limit
/// exactly equal to the configured limit is included.
pub proof fn lemma_filter_boundary(f: Fund, rule: FilterRule)
    ensures
        dec_eq(f.premium_rate, rule.premium_threshold) ==> !passes(f, rule),
        dec_gt(f.premium_rate, rule.premium_threshold) && f.purchase_limit == rule.purchase_limit
            ==> passes(f, rule),
{
}

} // verus!
