//! Bit-budget category bisection.
//!
//! Categories are not transmitted; the decoder reconstructs them:
//!
//! 1. A bisection finds a global `bias` whose summed cost
//!    `Σ expbits[clip((bias - sf[i]) / 2, 0, 7)]` is as close as possible
//!    to `bits_left` without exceeding it (the division truncates toward
//!    zero; the cost never rises as the bias grows).
//! 2. From the bias's categories, `numvector_size - 1` exchange steps each
//!    either refine one band of a first cursor (the band of largest
//!    weight `sf[i] + 2 (8 - e1[i])` still above category 0) or coarsen
//!    one band of a second cursor (the band of smallest weight still below
//!    category 7), keeping the running cost closest to `2 × bits_left`,
//!    with 32-bit saturating arithmetic.
//! 3. The categories are the second cursor's.
use crate::category_assignment::{
    category_cost, clip_category, cost_of, lemma_cost_of_antitone, max_prefix, min_prefix,
    value_extremes,
};
use vstd::prelude::*;

verus! {

/// Division by two truncating toward zero.
pub open spec fn trunc_half(x: int) -> int {
    if x >= 0 {
        x / 2
    } else {
        -((-x) / 2)
    }
}

/// The cost index of a band: `clip((bias - sf) / 2, 0, 7)`.
pub open spec fn cost_index_of(bias: int, sf: int) -> int {
    clip_category(trunc_half(bias - sf))
}

/// The summed cost of the first `n` bands at `bias`.
pub open spec fn cost_for_bias(bias: int, sf: Seq<i32>, n: int) -> int
    decreases n,
{
    if n <= 0 {
        0
    } else {
        cost_for_bias(bias, sf, n - 1) + cost_of(cost_index_of(bias, sf[n - 1] as int))
    }
}

/// The lowest bias searched: at or below it every band is category 0.
pub open spec fn bias_floor(sf: Seq<i32>) -> int {
    min_prefix(sf, sf.len() as int) - 1
}

/// The highest bias searched: at or above it every band is category 7.
pub open spec fn bias_ceiling(sf: Seq<i32>) -> int {
    max_prefix(sf, sf.len() as int) + 14
}

/// Whether `b` is where the cost first fits the budget: `b` fits, the bias
/// just below it does not.
pub open spec fn fit_edge(sf: Seq<i32>, bits_left: int, b: int) -> bool {
    &&& cost_for_bias(b, sf, sf.len() as int) <= bits_left
    &&& cost_for_bias(b - 1, sf, sf.len() as int) > bits_left
}

/// The bias the search picks: the floor when even it fits, the ceiling
/// when nothing fits (a negative budget), otherwise the lowest fitting
/// bias, whose cost is the largest that fits.
pub open spec fn found_bias(sf: Seq<i32>, bits_left: int) -> int {
    if cost_for_bias(bias_floor(sf), sf, sf.len() as int) <= bits_left {
        bias_floor(sf)
    } else if bits_left < 0 {
        bias_ceiling(sf)
    } else {
        choose|b: int| bias_floor(sf) < b <= bias_ceiling(sf) && fit_edge(sf, bits_left, b)
    }
}

/// The scale factors are in the range the 32-bit arithmetic admits.
pub open spec fn scale_factors_in_range(sf: Seq<i32>) -> bool {
    &&& sf.len() * 104 <= i32::MAX
    &&& forall|i: int| 0 <= i < sf.len() ==> i32::MIN + 96 <= #[trigger] sf[i] <= i32::MAX - 32
}

proof fn lemma_cost_for_bias_bounds(bias: int, sf: Seq<i32>, n: int)
    requires
        0 <= n <= sf.len(),
    ensures
        0 <= cost_for_bias(bias, sf, n) <= 52 * n,
    decreases n,
{
    if n > 0 {
        lemma_cost_for_bias_bounds(bias, sf, n - 1);
    }
}

/// The clipped cost index `clip((bias - sf) / 2, 0, 7)`.
pub fn cost_index(bias: i32, sf: i32) -> (i: usize)
    requires
        i32::MIN <= bias - sf <= i32::MAX,
    ensures
        i == cost_index_of(bias as int, sf as int),
        i <= 7,
{
    let raw = (bias - sf) / 2;
    if raw < 0 {
        0
    } else if raw > 7 {
        7
    } else {
        raw as usize
    }
}

proof fn lemma_trunc_half_monotone(x: int, y: int)
    requires
        x <= y,
    ensures
        trunc_half(x) <= trunc_half(y),
{
}

/// The summed cost never rises as the bias grows.
proof fn lemma_cost_for_bias_antitone(b1: int, b2: int, sf: Seq<i32>, n: int)
    requires
        b1 <= b2,
        0 <= n <= sf.len(),
    ensures
        cost_for_bias(b2, sf, n) <= cost_for_bias(b1, sf, n),
    decreases n,
{
    if n > 0 {
        lemma_cost_for_bias_antitone(b1, b2, sf, n - 1);
        let s = sf[n - 1] as int;
        lemma_trunc_half_monotone(b1 - s, b2 - s);
        lemma_cost_of_antitone(cost_index_of(b1, s), cost_index_of(b2, s));
    }
}

/// At or below the floor every band is category 0; at or above the
/// ceiling every band is category 7 and the cost is 0.
proof fn lemma_cost_at_extremes(b: int, sf: Seq<i32>, n: int)
    requires
        0 <= n <= sf.len(),
    ensures
        b <= bias_floor(sf) ==> cost_for_bias(b, sf, n) == 52 * n,
        b >= bias_ceiling(sf) ==> cost_for_bias(b, sf, n) == 0,
    decreases n,
{
    if n > 0 {
        lemma_cost_at_extremes(b, sf, n - 1);
        crate::category_assignment::lemma_extremes_bound(sf, sf.len() as int);
    }
}

/// Two fit edges coincide.
proof fn lemma_fit_edge_unique(sf: Seq<i32>, bits_left: int, b1: int, b2: int)
    requires
        fit_edge(sf, bits_left, b1),
        fit_edge(sf, bits_left, b2),
    ensures
        b1 == b2,
{
    if b1 < b2 {
        lemma_cost_for_bias_antitone(b1, b2 - 1, sf, sf.len() as int);
    } else if b2 < b1 {
        lemma_cost_for_bias_antitone(b2, b1 - 1, sf, sf.len() as int);
    }
}

/// The cost index of a band, computed wide.
fn cost_index_wide(bias: i64, sf: i64) -> (i: usize)
    requires
        -0x1_0000_0000 <= bias <= 0x1_0000_0000,
        -0x1_0000_0000 <= sf <= 0x1_0000_0000,
    ensures
        i == cost_index_of(bias as int, sf as int),
        i <= 7,
{
    let raw = (bias - sf) / 2;
    if raw < 0 {
        0
    } else if raw > 7 {
        7
    } else {
        raw as usize
    }
}

fn cost_for_bias_exec(bias: i64, sf: &[i32]) -> (c: i64)
    requires
        -0x1_0000_0000 <= bias <= 0x1_0000_0000,
        scale_factors_in_range(sf@),
    ensures
        c == cost_for_bias(bias as int, sf@, sf@.len() as int),
{
    let mut acc: i64 = 0;
    let mut i: usize = 0;
    while i < sf.len()
        invariant
            i <= sf@.len(),
            -0x1_0000_0000 <= bias <= 0x1_0000_0000,
            scale_factors_in_range(sf@),
            acc == cost_for_bias(bias as int, sf@, i as int),
        decreases sf@.len() - i,
    {
        proof {
            lemma_cost_for_bias_bounds(bias as int, sf@, i as int + 1);
        }
        let s = sf[i];
        let ci = cost_index_wide(bias, s as i64);
        acc = acc + category_cost(ci as u8) as i64;
        i += 1;
    }
    acc
}

/// The bias whose summed cost is as close as possible to `bits_left`
/// without exceeding it, and that cost: the lowest fitting bias in the
/// searched range (the floor when even it fits); for a negative budget,
/// which nothing meets, the ceiling, where the cost is 0.
pub fn find_bias(sf: &[i32], bits_left: i32) -> (r: (i32, i32))
    requires
        scale_factors_in_range(sf@),
    ensures
        r.0 == found_bias(sf@, bits_left as int),
        r.1 == cost_for_bias(r.0 as int, sf@, sf@.len() as int),
        (exists|b: int| cost_for_bias(b, sf@, sf@.len() as int) <= bits_left) ==> r.1 <= bits_left,
        forall|b: int|
            cost_for_bias(b, sf@, sf@.len() as int) <= bits_left ==> #[trigger] cost_for_bias(
                b,
                sf@,
                sf@.len() as int,
            ) <= r.1,
{
    let n = sf.len();
    let ghost s = sf@;
    let (hi_v, lo_v) = value_extremes(sf);
    proof {
        if n > 0 {
            assert(sf@[0] <= hi_v && lo_v <= sf@[0]);
        }
    }
    proof {
        if n > 0 {
            let bl = choose|b: int| 0 <= b < n && #[trigger] sf@[b] == lo_v;
            let bh = choose|b: int| 0 <= b < n && #[trigger] sf@[b] == hi_v;
            assert(sf@[bl] >= i32::MIN + 96);
            assert(sf@[bh] <= i32::MAX - 32);
        }
    }
    let lo: i64 = lo_v as i64 - 1;
    let hi: i64 = hi_v as i64 + 14;
    assert(i32::MIN < lo && hi < i32::MAX);
    assert(lo == bias_floor(s) && hi == bias_ceiling(s));
    proof {
        lemma_cost_at_extremes(lo as int, s, n as int);
        lemma_cost_at_extremes(hi as int, s, n as int);
        lemma_cost_for_bias_bounds(0, s, n as int);
    }
    let c_lo = cost_for_bias_exec(lo, sf);
    let bias: i64 = if c_lo <= bits_left as i64 {
        lo
    } else if bits_left < 0 {
        hi
    } else {
        let mut a: i64 = lo;
        let mut c: i64 = hi;
        while c - a > 1
            invariant
                lo <= a < c <= hi,
                i32::MIN < lo,
                hi < i32::MAX,
                n == s.len(),
                lo == bias_floor(s),
                hi == bias_ceiling(s),
                s == sf@,
                scale_factors_in_range(sf@),
                cost_for_bias(a as int, s, n as int) > bits_left,
                cost_for_bias(c as int, s, n as int) <= bits_left,
            decreases c - a,
        {
            let m = a + (c - a) / 2;
            if cost_for_bias_exec(m, sf) <= bits_left as i64 {
                c = m;
            } else {
                a = m;
            }
        }
        proof {
            assert(fit_edge(s, bits_left as int, c as int));
        }
        c
    };
    proof {
        let f = found_bias(s, bits_left as int);
        if !(c_lo <= bits_left) && bits_left >= 0 {
            assert(fit_edge(s, bits_left as int, bias as int));
            assert(exists|b: int| bias_floor(s) < b <= bias_ceiling(s) && fit_edge(s, bits_left as int, b));
            lemma_fit_edge_unique(s, bits_left as int, f, bias as int);
        }
        assert(bias == f);
        if exists|b: int| cost_for_bias(b, s, n as int) <= bits_left {
            let b = choose|b: int| cost_for_bias(b, s, n as int) <= bits_left;
            lemma_cost_for_bias_bounds(b, s, n as int);
        }
        assert forall|b: int|
            cost_for_bias(b, s, n as int) <= bits_left implies #[trigger] cost_for_bias(
                b,
                s,
                n as int,
            ) <= cost_for_bias(bias as int, s, n as int) by {
            if b >= bias {
                lemma_cost_for_bias_antitone(bias as int, b, s, n as int);
            } else if bias == lo {
                lemma_cost_at_extremes(b, s, n as int);
            } else {
                lemma_cost_for_bias_antitone(b, bias - 1, s, n as int);
            }
        }
    }
    let cost = cost_for_bias_exec(bias, sf);
    proof {
        lemma_cost_for_bias_bounds(bias as int, s, n as int);
    }
    (bias as i32, cost as i32)
}

/// The exchange state: both cursors and the running cost.
pub type ExchangeState = (Seq<i32>, Seq<i32>, int);

/// A 32-bit saturation.
pub open spec fn sat32(x: int) -> int {
    if x < i32::MIN {
        i32::MIN as int
    } else if x > i32::MAX {
        i32::MAX as int
    } else {
        x
    }
}

/// A 32-bit saturating absolute value.
pub open spec fn sat_abs32(x: int) -> int {
    if x == i32::MIN {
        i32::MAX as int
    } else if x < 0 {
        -x
    } else {
        x
    }
}

/// The exchange weight of band `i` under cursor `e`.
pub open spec fn weight(sf: Seq<i32>, e: Seq<i32>, i: int) -> int {
    sf[i] + (8 - e[i]) * 2
}

/// Among the first `k` bands, the first one of largest weight whose
/// first-cursor category is above `0`, with its weight (`-1` and the
/// 32-bit minimum for none).
pub open spec fn best_expand(sf: Seq<i32>, e1: Seq<i32>, k: int) -> (int, int)
    decreases k,
{
    if k <= 0 {
        (-1, i32::MIN as int)
    } else {
        let (bi, bw) = best_expand(sf, e1, k - 1);
        if e1[k - 1] > 0 && weight(sf, e1, k - 1) > bw {
            (k - 1, weight(sf, e1, k - 1))
        } else {
            (bi, bw)
        }
    }
}

/// Among the first `k` bands, the first one of smallest weight whose
/// second-cursor category is below `7`, with its weight (`-1` and the
/// 32-bit maximum for none).
pub open spec fn best_contract(sf: Seq<i32>, e2: Seq<i32>, k: int) -> (int, int)
    decreases k,
{
    if k <= 0 {
        (-1, i32::MAX as int)
    } else {
        let (bi, bw) = best_contract(sf, e2, k - 1);
        if e2[k - 1] < 7 && weight(sf, e2, k - 1) < bw {
            (k - 1, weight(sf, e2, k - 1))
        } else {
            (bi, bw)
        }
    }
}

/// One exchange step, or `None` when neither cursor can move.
pub open spec fn exchange_step(sf: Seq<i32>, target: int, st: ExchangeState) -> Option<ExchangeState> {
    let n = sf.len() as int;
    let i1 = best_expand(sf, st.0, n).0;
    let i2 = best_contract(sf, st.1, n).0;
    if i1 < 0 && i2 < 0 {
        None
    } else {
        let d1 = if i1 >= 0 {
            cost_of(clip_category(st.0[i1] - 1)) - cost_of(clip_category(st.0[i1] as int))
        } else {
            i32::MIN as int
        };
        let d2 = if i2 >= 0 {
            cost_of(clip_category(st.1[i2] + 1)) - cost_of(clip_category(st.1[i2] as int))
        } else {
            i32::MAX as int
        };
        let na1 = sat32(st.2 + d1);
        let na2 = sat32(st.2 + d2);
        let pick_first = sat_abs32(sat32(na1 - target)) <= sat_abs32(sat32(na2 - target));
        if pick_first && i1 >= 0 {
            Some((st.0.update(i1, (st.0[i1] - 1) as i32), st.1, na1))
        } else if i2 >= 0 {
            Some((st.0, st.1.update(i2, (st.1[i2] + 1) as i32), na2))
        } else {
            Some((st.0.update(i1, (st.0[i1] - 1) as i32), st.1, na1))
        }
    }
}

/// Up to `k` exchange steps.
pub open spec fn exchange_loop(sf: Seq<i32>, target: int, st: ExchangeState, k: nat) -> ExchangeState
    decreases k,
{
    if k == 0 {
        st
    } else {
        match exchange_step(sf, target, st) {
            None => st,
            Some(next) => exchange_loop(sf, target, next, (k - 1) as nat),
        }
    }
}

/// The categories of the bias for every band.
pub open spec fn bias_categories(bias: int, sf: Seq<i32>) -> Seq<i32> {
    Seq::new(sf.len(), |i: int| cost_index_of(bias, sf[i] as int) as i32)
}

/// The summed cost of a cursor's categories.
pub open spec fn cursor_cost(e: Seq<i32>, n: int) -> int
    decreases n,
{
    if n <= 0 {
        0
    } else {
        cursor_cost(e, n - 1) + cost_of(clip_category(e[n - 1] as int))
    }
}

/// The second cursor after the exchange loop of `categorise`.
pub open spec fn categorise_cursor(sf: Seq<i32>, bits_left: int, numvector_size: int) -> Seq<i32> {
    let bias = found_bias(sf, bits_left);
    let e = bias_categories(bias, sf);
    let steps = if numvector_size >= 1 {
        numvector_size - 1
    } else {
        0
    };
    exchange_loop(sf, 2 * bits_left, (e, e, cursor_cost(e, sf.len() as int) * 2), steps as nat).1
}

proof fn lemma_best_contract_least(sf: Seq<i32>, e2: Seq<i32>, k: int)
    requires
        0 <= k <= e2.len(),
        e2.len() == sf.len(),
        scale_factors_in_range(sf),
        cursor_in_range(e2),
    ensures
        best_contract(sf, e2, k).0 == -1 <==> forall|j: int| 0 <= j < k ==> e2[j] >= 7,
        best_contract(sf, e2, k).0 >= 0 ==> {
            let b = best_contract(sf, e2, k).0;
            &&& b < k
            &&& e2[b] < 7
            &&& best_contract(sf, e2, k).1 == sf[b] + 2 * (8 - e2[b])
            &&& forall|j: int|
                0 <= j < k && e2[j] < 7 ==> sf[b] + 2 * (8 - e2[b]) <= #[trigger] sf[j] + 2 * (8
                    - e2[j])
            &&& forall|j: int|
                0 <= j < b && e2[j] < 7 ==> sf[b] + 2 * (8 - e2[b]) < #[trigger] sf[j] + 2 * (8
                    - e2[j])
        },
        best_contract(sf, e2, k).0 == -1 ==> best_contract(sf, e2, k).1 == i32::MAX,
    decreases k,
{
    if k > 0 {
        lemma_best_contract_least(sf, e2, k - 1);
        lemma_best_contract_range(sf, e2, k - 1);
        assert(i32::MIN + 96 <= sf[k - 1] <= i32::MAX - 32);
        assert(0 <= e2[k - 1] <= 7);
        let pb = best_contract(sf, e2, k - 1).0;
        let pw = best_contract(sf, e2, k - 1).1;
        let wk = sf[k - 1] + 2 * (8 - e2[k - 1]);
        assert(weight(sf, e2, k - 1) == wk);
        if e2[k - 1] < 7 && wk < pw {
            assert forall|j: int|
                0 <= j < k && e2[j] < 7 implies wk <= #[trigger] sf[j] + 2 * (8 - e2[j]) by {
                if j < k - 1 {
                    assert(pb >= 0);
                }
            }
            assert forall|j: int|
                0 <= j < k - 1 && e2[j] < 7 implies wk < #[trigger] sf[j] + 2 * (8 - e2[j]) by {
                assert(pb >= 0);
            }
        } else {
            if pb < 0 {
                assert(pw == i32::MAX);
                assert(e2[k - 1] >= 7);
                assert forall|j: int| 0 <= j < k implies e2[j] >= 7 by {}
            } else {
                assert forall|j: int|
                    0 <= j < k && e2[j] < 7 implies sf[pb] + 2 * (8 - e2[pb]) <= #[trigger] sf[j]
                        + 2 * (8 - e2[j]) by {}
            }
        }
    }
}

proof fn lemma_best_expand_greatest(sf: Seq<i32>, e1: Seq<i32>, k: int)
    requires
        0 <= k <= e1.len(),
        e1.len() == sf.len(),
        scale_factors_in_range(sf),
        cursor_in_range(e1),
    ensures
        best_expand(sf, e1, k).0 == -1 <==> forall|j: int| 0 <= j < k ==> e1[j] <= 0,
        best_expand(sf, e1, k).0 >= 0 ==> {
            let b = best_expand(sf, e1, k).0;
            &&& b < k
            &&& e1[b] > 0
            &&& best_expand(sf, e1, k).1 == sf[b] + 2 * (8 - e1[b])
            &&& forall|j: int|
                0 <= j < k && e1[j] > 0 ==> sf[b] + 2 * (8 - e1[b]) >= #[trigger] sf[j] + 2 * (8
                    - e1[j])
            &&& forall|j: int|
                0 <= j < b && e1[j] > 0 ==> sf[b] + 2 * (8 - e1[b]) > #[trigger] sf[j] + 2 * (8
                    - e1[j])
        },
        best_expand(sf, e1, k).0 == -1 ==> best_expand(sf, e1, k).1 == i32::MIN,
    decreases k,
{
    if k > 0 {
        lemma_best_expand_greatest(sf, e1, k - 1);
        lemma_best_expand_range(sf, e1, k - 1);
        assert(i32::MIN + 96 <= sf[k - 1] <= i32::MAX - 32);
        assert(0 <= e1[k - 1] <= 7);
        let pb = best_expand(sf, e1, k - 1).0;
        let pw = best_expand(sf, e1, k - 1).1;
        let wk = sf[k - 1] + 2 * (8 - e1[k - 1]);
        assert(weight(sf, e1, k - 1) == wk);
        if e1[k - 1] > 0 && wk > pw {
            assert forall|j: int|
                0 <= j < k && e1[j] > 0 implies wk >= #[trigger] sf[j] + 2 * (8 - e1[j]) by {
                if j < k - 1 {
                    assert(pb >= 0);
                }
            }
            assert forall|j: int|
                0 <= j < k - 1 && e1[j] > 0 implies wk > #[trigger] sf[j] + 2 * (8 - e1[j]) by {
                assert(pb >= 0);
            }
        } else {
            if pb < 0 {
                assert(pw == i32::MIN);
                assert(e1[k - 1] <= 0);
                assert forall|j: int| 0 <= j < k implies e1[j] <= 0 by {}
            } else {
                assert forall|j: int|
                    0 <= j < k && e1[j] > 0 implies sf[pb] + 2 * (8 - e1[pb]) >= #[trigger] sf[j]
                        + 2 * (8 - e1[j]) by {}
            }
        }
    }
}

/// An exchange step moves exactly one cursor by one category. When it
/// coarsens the second cursor, the band raised is the first, among the
/// bands still below 7, of least `sf[i] + 2 (8 - e2[i])`; when it
/// refines the first cursor, the band lowered is the first, among the
/// bands still above 0, of greatest `sf[i] + 2 (8 - e1[i])`. A step is
/// taken exactly when some band can move.
pub proof fn lemma_exchange_step_moves_by_weight(sf: Seq<i32>, target: int, st: ExchangeState)
    requires
        scale_factors_in_range(sf),
        st.0.len() == sf.len(),
        st.1.len() == sf.len(),
        cursor_in_range(st.0),
        cursor_in_range(st.1),
    ensures
        exchange_step(sf, target, st) is None <==> (forall|k: int|
            0 <= k < sf.len() ==> st.0[k] <= 0 && st.1[k] >= 7),
        exchange_step(sf, target, st) matches Some(next) ==> (next.0 == st.0 && exists|j: int|
            {
                &&& 0 <= j < sf.len()
                &&& st.1[j] < 7
                &&& next.1 == st.1.update(j, (st.1[j] + 1) as i32)
                &&& forall|k: int|
                    0 <= k < sf.len() && st.1[k] < 7 ==> sf[j] + 2 * (8 - st.1[j]) <= #[trigger] sf[k]
                        + 2 * (8 - st.1[k])
                &&& forall|k: int|
                    0 <= k < j && st.1[k] < 7 ==> sf[j] + 2 * (8 - st.1[j]) < #[trigger] sf[k] + 2
                        * (8 - st.1[k])
            }) || (next.1 == st.1 && exists|j: int|
            {
                &&& 0 <= j < sf.len()
                &&& st.0[j] > 0
                &&& next.0 == st.0.update(j, (st.0[j] - 1) as i32)
                &&& forall|k: int|
                    0 <= k < sf.len() && st.0[k] > 0 ==> sf[j] + 2 * (8 - st.0[j]) >= #[trigger] sf[k]
                        + 2 * (8 - st.0[k])
                &&& forall|k: int|
                    0 <= k < j && st.0[k] > 0 ==> sf[j] + 2 * (8 - st.0[j]) > #[trigger] sf[k] + 2
                        * (8 - st.0[k])
            }),
{
    let n = sf.len() as int;
    lemma_best_contract_least(sf, st.1, n);
    lemma_best_expand_greatest(sf, st.0, n);
    lemma_best_contract_range(sf, st.1, n);
    lemma_best_expand_range(sf, st.0, n);
    let i1 = best_expand(sf, st.0, n).0;
    let i2 = best_contract(sf, st.1, n).0;
    if i1 < 0 && i2 < 0 {
        assert forall|k: int| 0 <= k < n implies st.0[k] <= 0 && st.1[k] >= 7 by {
            assert(st.0[k] <= 0);
            assert(st.1[k] >= 7);
        }
    } else {
        if i1 >= 0 {
            assert(!(st.0[i1] <= 0));
        } else {
            assert(!(st.1[i2] >= 7));
        }
    }
}

/// How far the categories `r` sit above `base` over the first `n`
/// bands, summed.
pub open spec fn raise_total(r: Seq<i32>, base: Seq<i32>, n: int) -> int
    decreases n,
{
    if n <= 0 {
        0
    } else {
        raise_total(r, base, n - 1) + (r[n - 1] - base[n - 1])
    }
}

proof fn lemma_raise_total_agree(r1: Seq<i32>, r2: Seq<i32>, base: Seq<i32>, n: int)
    requires
        forall|i: int| 0 <= i < n ==> r1[i] == r2[i],
    ensures
        raise_total(r1, base, n) == raise_total(r2, base, n),
    decreases n,
{
    if n > 0 {
        lemma_raise_total_agree(r1, r2, base, n - 1);
    }
}

proof fn lemma_raise_total_bump(r: Seq<i32>, base: Seq<i32>, n: int, j: int)
    requires
        0 <= j < n <= r.len(),
        r[j] < 7,
    ensures
        raise_total(r.update(j, (r[j] + 1) as i32), base, n) == raise_total(r, base, n) + 1,
    decreases n,
{
    let u = r.update(j, (r[j] + 1) as i32);
    if n - 1 > j {
        lemma_raise_total_bump(r, base, n - 1, j);
    } else {
        lemma_raise_total_agree(u, r, base, n - 1);
    }
}

proof fn lemma_raise_total_self(base: Seq<i32>, n: int)
    ensures
        raise_total(base, base, n) == 0,
    decreases n,
{
    if n > 0 {
        lemma_raise_total_self(base, n - 1);
    }
}

/// The exchange loop only ever raises second-cursor categories below
/// `7`, one band by one per step.
proof fn lemma_exchange_raises(sf: Seq<i32>, target: int, st: ExchangeState, k: nat, base: Seq<i32>)
    requires
        st.1.len() == sf.len(),
        base.len() == sf.len(),
        forall|i: int| 0 <= i < sf.len() ==> base[i] <= #[trigger] st.1[i] <= 7,
    ensures
        exchange_loop(sf, target, st, k).1.len() == sf.len(),
        forall|i: int|
            0 <= i < sf.len() ==> base[i] <= #[trigger] exchange_loop(sf, target, st, k).1[i] <= 7,
        raise_total(exchange_loop(sf, target, st, k).1, base, sf.len() as int) <= raise_total(
            st.1,
            base,
            sf.len() as int,
        ) + k,
    decreases k,
{
    if k > 0 {
        let n = sf.len() as int;
        match exchange_step(sf, target, st) {
            None => {},
            Some(next) => {
                lemma_best_contract_range(sf, st.1, n);
                let i2 = best_contract(sf, st.1, n).0;
                assert(next.1 == st.1 || (0 <= i2 < n && next.1 == st.1.update(
                    i2,
                    (st.1[i2] + 1) as i32,
                )));
                if next.1 != st.1 {
                    lemma_raise_total_bump(st.1, base, n, i2);
                }
                lemma_exchange_raises(sf, target, next, (k - 1) as nat, base);
            },
        }
    }
}

/// `categorise`'s categories start from the bias's categories and only
/// rise: each band ends at or above its bias category and at most at
/// `7`, and the exchange steps raise them by at most `numvector_size - 1`
/// in all.
pub proof fn lemma_categorise_bounds(sf: Seq<i32>, bits_left: int, numvector_size: int)
    ensures
        categorise_cursor(sf, bits_left, numvector_size).len() == sf.len(),
        forall|i: int|
            0 <= i < sf.len() ==> bias_categories(found_bias(sf, bits_left), sf)[i]
                <= #[trigger] categorise_cursor(sf, bits_left, numvector_size)[i] <= 7,
        raise_total(
            categorise_cursor(sf, bits_left, numvector_size),
            bias_categories(found_bias(sf, bits_left), sf),
            sf.len() as int,
        ) <= if numvector_size >= 1 {
            numvector_size - 1
        } else {
            0
        },
{
    let e = bias_categories(found_bias(sf, bits_left), sf);
    let steps = if numvector_size >= 1 {
        numvector_size - 1
    } else {
        0
    };
    let st: ExchangeState = (e, e, cursor_cost(e, sf.len() as int) * 2);
    lemma_raise_total_self(e, sf.len() as int);
    lemma_exchange_raises(sf, 2 * bits_left, st, steps as nat, e);
}

fn sat32_exec(x: i64) -> (r: i64)
    ensures
        r == sat32(x as int),
{
    if x < i32::MIN as i64 {
        i32::MIN as i64
    } else if x > i32::MAX as i64 {
        i32::MAX as i64
    } else {
        x
    }
}

fn sat_abs32_exec(x: i64) -> (r: i64)
    requires
        i32::MIN <= x <= i32::MAX,
    ensures
        r == sat_abs32(x as int),
{
    if x == i32::MIN as i64 {
        i32::MAX as i64
    } else if x < 0 {
        -x
    } else {
        x
    }
}

/// Every cursor category lies in `0..=7`.
pub open spec fn cursor_in_range(e: Seq<i32>) -> bool {
    forall|i: int| 0 <= i < e.len() ==> 0 <= #[trigger] e[i] <= 7
}

proof fn lemma_best_expand_range(sf: Seq<i32>, e1: Seq<i32>, k: int)
    requires
        0 <= k <= e1.len(),
    ensures
        -1 <= best_expand(sf, e1, k).0 < k,
        best_expand(sf, e1, k).0 >= 0 ==> e1[best_expand(sf, e1, k).0] > 0,
    decreases k,
{
    if k > 0 {
        lemma_best_expand_range(sf, e1, k - 1);
    }
}

proof fn lemma_best_contract_range(sf: Seq<i32>, e2: Seq<i32>, k: int)
    requires
        0 <= k <= e2.len(),
    ensures
        -1 <= best_contract(sf, e2, k).0 < k,
        best_contract(sf, e2, k).0 >= 0 ==> e2[best_contract(sf, e2, k).0] < 7,
    decreases k,
{
    if k > 0 {
        lemma_best_contract_range(sf, e2, k - 1);
    }
}

proof fn lemma_cursor_cost_bounds(e: Seq<i32>, n: int)
    requires
        0 <= n <= e.len(),
    ensures
        0 <= cursor_cost(e, n) <= 52 * n,
    decreases n,
{
    if n > 0 {
        lemma_cursor_cost_bounds(e, n - 1);
    }
}

/// The per-band categories `0..=7` from the scale factors and the bit
/// budget: the bisection's categories refined by `numvector_size - 1`
/// exchange steps toward `2 × bits_left`; the second cursor is returned.
/// Every category is at or above the bias's category for its band, and
/// they rise above those by at most `numvector_size - 1` in all.
pub fn categorise(sf: &[i32], total_subbands: usize, bits_left: i32, numvector_size: usize) -> (r:
    Vec<u8>)
    requires
        sf@.len() == total_subbands,
        scale_factors_in_range(sf@),
        -0x4000_0000 <= bits_left < 0x4000_0000,
    ensures
        r@.len() == sf@.len(),
        forall|i: int|
            0 <= i < r@.len() ==> #[trigger] r@[i] == clip_category(
                categorise_cursor(sf@, bits_left as int, numvector_size as int)[i] as int,
            ) as u8,
        forall|i: int| 0 <= i < r@.len() ==> #[trigger] r@[i] <= 7,
        forall|i: int|
            0 <= i < r@.len() ==> bias_categories(found_bias(sf@, bits_left as int), sf@)[i]
                <= #[trigger] r@[i],
        raise_total(
            r@.map_values(|c: u8| c as i32),
            bias_categories(found_bias(sf@, bits_left as int), sf@),
            sf@.len() as int,
        ) <= if numvector_size >= 1 {
            numvector_size - 1
        } else {
            0
        },
{
    let n = total_subbands;
    let (bias, _) = find_bias(sf, bits_left);
    let ghost e0 = bias_categories(bias as int, sf@);
    let mut e1: Vec<i32> = Vec::new();
    let mut e2: Vec<i32> = Vec::new();
    let mut acc: i64 = 0;
    let mut i: usize = 0;
    while i < n
        invariant
            n == sf@.len(),
            scale_factors_in_range(sf@),
            e0 == bias_categories(bias as int, sf@),
            i <= n,
            e1@ == e0.subrange(0, i as int),
            e2@ == e0.subrange(0, i as int),
            acc == 2 * cursor_cost(e0, i as int),
        decreases n - i,
    {
        proof {
            lemma_cursor_cost_bounds(e0, i as int + 1);
        }
        let c = cost_index_wide(bias as i64, sf[i] as i64);
        e1.push(c as i32);
        e2.push(c as i32);
        acc = acc + 2 * category_cost(c as u8) as i64;
        proof {
            assert(e0.subrange(0, i as int).push(c as i32) =~= e0.subrange(0, i as int + 1));
        }
        i += 1;
    }
    proof {
        assert(e1@ =~= e0);
        assert(e2@ =~= e0);
        lemma_cursor_cost_bounds(e0, n as int);
    }
    let target: i64 = 2 * bits_left as i64;
    let steps: usize = if numvector_size >= 1 {
        numvector_size - 1
    } else {
        0
    };
    let ghost init: ExchangeState = (e0, e0, acc as int);
    let mut k: usize = 0;
    while k < steps
        invariant_except_break
            k <= steps,
        invariant
            n == sf@.len(),
            scale_factors_in_range(sf@),
            target == 2 * bits_left,
            e1@.len() == n,
            e2@.len() == n,
            cursor_in_range(e1@),
            cursor_in_range(e2@),
            i32::MIN <= acc <= i32::MAX,
            exchange_loop(sf@, target as int, init, steps as nat) == exchange_loop(
                sf@,
                target as int,
                (e1@, e2@, acc as int),
                (steps - k) as nat,
            ),
        ensures
            exchange_loop(sf@, target as int, init, steps as nat) == (e1@, e2@, acc as int),
            e2@.len() == n,
        decreases steps - k,
    {
        let mut bi1: i64 = -1;
        let mut bw1: i64 = i32::MIN as i64;
        let mut bi2: i64 = -1;
        let mut bw2: i64 = i32::MAX as i64;
        let mut j: usize = 0;
        while j < n
            invariant
                n == sf@.len(),
                scale_factors_in_range(sf@),
                e1@.len() == n,
                e2@.len() == n,
                cursor_in_range(e1@),
                cursor_in_range(e2@),
                j <= n,
                (bi1 as int, bw1 as int) == best_expand(sf@, e1@, j as int),
                (bi2 as int, bw2 as int) == best_contract(sf@, e2@, j as int),
            decreases n - j,
        {
            let s = sf[j] as i64;
            if e1[j] > 0 {
                let w = s + (8 - e1[j] as i64) * 2;
                if w > bw1 {
                    bw1 = w;
                    bi1 = j as i64;
                }
            }
            if e2[j] < 7 {
                let w = s + (8 - e2[j] as i64) * 2;
                if w < bw2 {
                    bw2 = w;
                    bi2 = j as i64;
                }
            }
            j += 1;
        }
        proof {
            lemma_best_expand_range(sf@, e1@, n as int);
            lemma_best_contract_range(sf@, e2@, n as int);
        }
        if bi1 < 0 && bi2 < 0 {
            break;
        }
        let d1: i64 = if bi1 >= 0 {
            let c = e1[bi1 as usize];
            category_cost((c - 1) as u8) as i64 - category_cost(c as u8) as i64
        } else {
            i32::MIN as i64
        };
        let d2: i64 = if bi2 >= 0 {
            let c = e2[bi2 as usize];
            category_cost((c + 1) as u8) as i64 - category_cost(c as u8) as i64
        } else {
            i32::MAX as i64
        };
        let na1 = sat32_exec(acc + d1);
        let na2 = sat32_exec(acc + d2);
        let pick_first = sat_abs32_exec(sat32_exec(na1 - target)) <= sat_abs32_exec(
            sat32_exec(na2 - target),
        );
        let ghost cur: ExchangeState = (e1@, e2@, acc as int);
        if pick_first && bi1 >= 0 {
            let u = bi1 as usize;
            let c = e1[u];
            e1[u] = c - 1;
            acc = na1;
        } else if bi2 >= 0 {
            let u = bi2 as usize;
            let c = e2[u];
            e2[u] = c + 1;
            acc = na2;
        } else {
            let u = bi1 as usize;
            let c = e1[u];
            e1[u] = c - 1;
            acc = na1;
        }
        proof {
            assert(exchange_step(sf@, target as int, cur) == Some((e1@, e2@, acc as int)));
        }
        k += 1;
    }
    let mut out: Vec<u8> = Vec::new();
    let mut m: usize = 0;
    while m < n
        invariant
            n == e2@.len(),
            m <= n,
            out@.len() == m,
            forall|t: int| 0 <= t < m ==> #[trigger] out@[t] == clip_category(e2@[t] as int) as u8,
            forall|t: int| 0 <= t < m ==> #[trigger] out@[t] <= 7,
        decreases n - m,
    {
        let c = e2[m];
        let v: u8 = if c < 0 {
            0
        } else if c > 7 {
            7
        } else {
            c as u8
        };
        out.push(v);
        m += 1;
    }
    proof {
        let c = categorise_cursor(sf@, bits_left as int, numvector_size as int);
        assert(c == e2@);
        lemma_categorise_bounds(sf@, bits_left as int, numvector_size as int);
        assert(out@.map_values(|v: u8| v as i32) =~= c);
    }
    out
}

/// Cap every category at `7`.
pub fn expand_categories(categories: &mut [u8])
    ensures
        final(categories)@.len() == old(categories)@.len(),
        forall|i: int|
            0 <= i < old(categories)@.len() ==> #[trigger] final(categories)@[i] == if old(
                categories,
            )@[i] > 7 {
                7u8
            } else {
                old(categories)@[i]
            },
{
    let n = categories.len();
    let mut i: usize = 0;
    while i < n
        invariant
            n == categories@.len(),
            n == old(categories)@.len(),
            i <= n,
            forall|j: int|
                0 <= j < i ==> #[trigger] categories@[j] == if old(categories)@[j] > 7 {
                    7u8
                } else {
                    old(categories)@[j]
                },
            forall|j: int| i <= j < n ==> #[trigger] categories@[j] == old(categories)@[j],
        decreases n - i,
    {
        if categories[i] > 7 {
            categories[i] = 7;
        }
        i += 1;
    }
}

} // verus!
