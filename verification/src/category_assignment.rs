//! The category-assignment / bit-allocation pass.
//!
//! Cook does not transmit the per-band spectral category; it computes it
//! from a per-band value array `v[]` and a bit budget.
//!
//! Stage 1 (base assignment): for a global offset `off` every band's
//! category is `clip((K + off - v[b]) >> 1, 0, 7)` with `K = 32` and an
//! arithmetic (floor) shift; category 7 is the free empty band. Starting
//! from the coarsest offset at which every band is empty, the pass steps
//! to the next finer offset that changes the total cost while
//! `total_cost + K < budget`.
//!
//! Stage 2 (refinement): a walk bounded by `M - 1` candidate steps visits
//! unit offset steps below the base offset. At each offset the bands
//! whose category the step changes (those with even `t = K + off - v[b]`,
//! not absorbed by the clip) are candidates, in ascending band order. A
//! candidate is applied while the running total stays within the
//! half-bit cap `2 × budget - 6`; applied or not, it spends one step. A
//! sweep with candidates of which none applied ends the walk.
use crate::bit_alloc::{category_bit_cost, category_cost_lut};
use crate::category::{band_category_raw, BandCategory, CategoryIndex, EMPTY_BAND_CATEGORY};
use crate::Error;
use vstd::prelude::*;

verus! {

/// The base additive constant `K` of the category expression, also the
/// budget slack of the base pass.
pub const BASE_CONSTANT_K: i32 = 32;

/// The initial global offset of the allocator's bisection.
pub const OFFSET_START: i32 = -32;

/// The category clip lower bound.
pub const CATEGORY_CLIP_LO: i32 = 0;

/// The category clip upper bound (the empty band).
pub const CATEGORY_CLIP_HI: i32 = 7;

/// The cost LUT counts half-bits: the refinement fills toward
/// `2 × budget`.
pub const REFINEMENT_TARGET_FACTOR: i32 = 2;

/// The slack below `2 × budget` the refinement keeps.
pub const REFINEMENT_CAP_SLACK: i32 = 6;

/// The six halving steps of the allocator's offset bisection.
pub const BISECTION_STEPS: [i32; 6] = [32, 16, 8, 4, 2, 1];

/// `x` clipped to `0..=7`.
pub open spec fn clip_category(x: int) -> int {
    if x < 0 {
        0
    } else if x > 7 {
        7
    } else {
        x
    }
}

/// The base category of a band of value `vb` at offset `off`.
pub open spec fn cat_at(off: int, vb: int) -> int {
    clip_category((32 + off - vb) / 2)
}

/// The half-bit cost of a category: the LUT for `0..=6`, `0` for the
/// empty band.
pub open spec fn cost_of(c: int) -> int {
    if c >= 7 {
        0
    } else {
        category_cost_lut(c) as int
    }
}

/// The total cost of the first `n` bands at offset `off`.
pub open spec fn cost_prefix(off: int, v: Seq<i32>, n: int) -> int
    decreases n,
{
    if n <= 0 {
        0
    } else {
        cost_prefix(off, v, n - 1) + cost_of(cat_at(off, v[n - 1] as int))
    }
}

/// The total cost of the base assignment at offset `off`.
pub open spec fn total_at(off: int, v: Seq<i32>) -> int {
    cost_prefix(off, v, v.len() as int)
}

/// The largest of the first `n` values (`0` for none).
pub open spec fn max_prefix(v: Seq<i32>, n: int) -> int
    decreases n,
{
    if n <= 0 {
        0
    } else if n == 1 {
        v[0] as int
    } else {
        let m = max_prefix(v, n - 1);
        if v[n - 1] > m {
            v[n - 1] as int
        } else {
            m
        }
    }
}

/// The smallest of the first `n` values (`0` for none).
pub open spec fn min_prefix(v: Seq<i32>, n: int) -> int
    decreases n,
{
    if n <= 0 {
        0
    } else if n == 1 {
        v[0] as int
    } else {
        let m = min_prefix(v, n - 1);
        if v[n - 1] < m {
            v[n - 1] as int
        } else {
            m
        }
    }
}

/// The coarsest offset at which every band is empty: `max(v) - 18`.
pub open spec fn start_offset(v: Seq<i32>) -> int {
    max_prefix(v, v.len() as int) - 18
}

/// The offset below which no category changes any more: `min(v) - 48`.
pub open spec fn floor_offset(v: Seq<i32>) -> int {
    min_prefix(v, v.len() as int) - 48
}

/// Whether `o` is where the base pass lands for `(v, budget)`: the
/// largest offset, scanning down from the start, whose cost plus `K`
/// reaches the budget; or, when none does, the top of the finest cost
/// plateau.
pub open spec fn is_base_offset(v: Seq<i32>, budget: int, o: int) -> bool {
    let start = start_offset(v);
    let floor = floor_offset(v);
    &&& floor <= o <= start
    &&& (o == start || total_at(o + 1, v) != total_at(o, v))
    &&& forall|p: int| o < p <= start ==> #[trigger] total_at(p, v) + 32 < budget
    &&& (total_at(o, v) + 32 >= budget || forall|p: int|
        floor <= p < o ==> #[trigger] total_at(p, v) == total_at(o, v))
}

/// The offset the base pass lands on.
pub open spec fn base_offset(v: Seq<i32>, budget: int) -> int {
    choose|o: int| is_base_offset(v, budget, o)
}

/// The values are in the range the allocator's integer width admits.
pub open spec fn values_in_range(v: Seq<i32>) -> bool {
    &&& v.len() * 52 <= i32::MAX
    &&& forall|b: int| 0 <= b < v.len() ==> #[trigger] v[b] >= i32::MIN + 48
}

proof fn lemma_shr1_is_floor_half(x: i64)
    ensures
        (x >> 1u32) as int == x as int / 2,
{
    if x >= 0 {
        assert((x >> 1u32) == x / 2) by (bit_vector)
            requires
                x >= 0,
        ;
    } else {
        assert(((x >> 1u32) as i64) * 2 == x || ((x >> 1u32) as i64) * 2 + 1 == x)
            by (bit_vector)
            requires
                x < 0,
        ;
    }
}

/// The category is monotone in the offset.
proof fn lemma_cat_at_monotone(o1: int, o2: int, vb: int)
    requires
        o1 <= o2,
    ensures
        cat_at(o1, vb) <= cat_at(o2, vb),
        0 <= cat_at(o1, vb) <= 7,
{
    assert((32 + o1 - vb) / 2 <= (32 + o2 - vb) / 2) by (nonlinear_arith)
        requires
            o1 <= o2,
    ;
}

/// The cost decreases as the category coarsens.
pub(crate) proof fn lemma_cost_of_antitone(c: int, d: int)
    requires
        0 <= c <= d <= 7,
    ensures
        cost_of(c) >= cost_of(d),
        0 <= cost_of(c) <= 52,
{
}

/// The prefix cost is antitone in the offset and bounded by `52 n`.
proof fn lemma_cost_prefix_antitone(o1: int, o2: int, v: Seq<i32>, n: int)
    requires
        o1 <= o2,
        0 <= n <= v.len(),
    ensures
        cost_prefix(o1, v, n) >= cost_prefix(o2, v, n),
        0 <= cost_prefix(o1, v, n) <= 52 * n,
    decreases n,
{
    if n > 0 {
        lemma_cost_prefix_antitone(o1, o2, v, n - 1);
        lemma_cat_at_monotone(o1, o2, v[n - 1] as int);
        lemma_cat_at_monotone(o2, o2, v[n - 1] as int);
        lemma_cost_of_antitone(cat_at(o1, v[n - 1] as int), cat_at(o2, v[n - 1] as int));
        lemma_cost_of_antitone(cat_at(o2, v[n - 1] as int), 7);
    }
}

/// The total cost never decreases as the offset decreases.
pub proof fn lemma_total_at_antitone(o1: int, o2: int, v: Seq<i32>)
    requires
        o1 <= o2,
    ensures
        total_at(o1, v) >= total_at(o2, v),
        0 <= total_at(o1, v) <= 52 * v.len(),
{
    lemma_cost_prefix_antitone(o1, o2, v, v.len() as int);
}

/// At most one offset meets the landing description.
pub proof fn lemma_base_offset_unique(v: Seq<i32>, budget: int, o1: int, o2: int)
    requires
        is_base_offset(v, budget, o1),
        is_base_offset(v, budget, o2),
    ensures
        o1 == o2,
{
    lemma_not_below(v, budget, o1, o2);
    lemma_not_below(v, budget, o2, o1);
}

proof fn lemma_not_below(v: Seq<i32>, budget: int, o1: int, o2: int)
    requires
        is_base_offset(v, budget, o1),
        is_base_offset(v, budget, o2),
    ensures
        o2 <= o1,
{
    if o1 < o2 {
        let floor = floor_offset(v);
        assert(total_at(o2, v) + 32 < budget);
        assert(floor <= o1 < o2);
        assert(total_at(o1, v) == total_at(o2, v));
        assert(total_at(o1 + 1, v) == total_at(o2, v));
    }
}

/// Whether the base pass may stop at offset `x`: `x` is at most the
/// start, every offset above it up to the start stays under the budget
/// with `K` added, and either `x` reaches it or every finer offset costs
/// the same.
pub open spec fn may_stop_at(v: Seq<i32>, budget: int, x: int) -> bool {
    &&& x <= start_offset(v)
    &&& forall|p: int| x < p <= start_offset(v) ==> #[trigger] total_at(p, v) + 32 < budget
    &&& (total_at(x, v) + 32 >= budget || forall|p: int| p < x ==> #[trigger] total_at(p, v)
        == total_at(x, v))
}

proof fn lemma_cost_prefix_same(o1: int, o2: int, v: Seq<i32>, n: int)
    requires
        0 <= n <= v.len(),
        forall|b: int| 0 <= b < n ==> #[trigger] cat_at(o1, v[b] as int) == cat_at(o2, v[b] as int),
    ensures
        cost_prefix(o1, v, n) == cost_prefix(o2, v, n),
    decreases n,
{
    if n > 0 {
        lemma_cost_prefix_same(o1, o2, v, n - 1);
    }
}

/// At and below the floor every band is category 0, so the cost no
/// longer changes.
proof fn lemma_below_floor_constant(v: Seq<i32>, p: int)
    requires
        p <= floor_offset(v),
    ensures
        total_at(p, v) == total_at(floor_offset(v), v),
{
    let n = v.len() as int;
    if n > 0 {
        lemma_extremes_bound(v, n);
        assert forall|b: int| 0 <= b < n implies #[trigger] cat_at(p, v[b] as int) == cat_at(
            floor_offset(v),
            v[b] as int,
        ) by {
            let fl = floor_offset(v);
            assert((32 + p - v[b]) / 2 < 0) by (nonlinear_arith)
                requires
                    p <= fl,
                    fl == min_prefix(v, n) - 48,
                    min_prefix(v, n) <= v[b],
            ;
            assert((32 + fl - v[b]) / 2 < 0) by (nonlinear_arith)
                requires
                    fl == min_prefix(v, n) - 48,
                    min_prefix(v, n) <= v[b],
            ;
        }
        lemma_cost_prefix_same(p, floor_offset(v), v, n);
    }
}

/// The landing offset is the largest offset at which the base pass may
/// stop.
proof fn lemma_base_offset_maximal(v: Seq<i32>, budget: int, o: int, x: int)
    requires
        is_base_offset(v, budget, o),
    ensures
        may_stop_at(v, budget, o),
        x > o ==> !may_stop_at(v, budget, x),
{
    let fl = floor_offset(v);
    if total_at(o, v) + 32 < budget {
        assert forall|p: int| p < o implies #[trigger] total_at(p, v) == total_at(o, v) by {
            if p < fl {
                lemma_below_floor_constant(v, p);
                if fl < o {
                    assert(total_at(fl, v) == total_at(o, v));
                }
            }
        }
    }
    if x > o && may_stop_at(v, budget, x) {
        assert(total_at(x, v) + 32 < budget);
        assert(total_at(o, v) == total_at(x, v));
        assert(total_at(o + 1, v) == total_at(x, v));
    }
}

/// The landing offset exists and `o` is it.
proof fn lemma_base_offset_is(v: Seq<i32>, budget: int, o: int)
    requires
        is_base_offset(v, budget, o),
    ensures
        base_offset(v, budget) == o,
{
    let c = base_offset(v, budget);
    assert(is_base_offset(v, budget, c));
    lemma_base_offset_unique(v, budget, c, o);
}

pub(crate) proof fn lemma_extremes_bound(v: Seq<i32>, n: int)
    requires
        1 <= n <= v.len(),
    ensures
        forall|b: int| 0 <= b < n ==> min_prefix(v, n) <= #[trigger] v[b] <= max_prefix(v, n),
    decreases n,
{
    if n > 1 {
        lemma_extremes_bound(v, n - 1);
    }
}

proof fn lemma_all_empty_cost_prefix(off: int, v: Seq<i32>, n: int)
    requires
        0 <= n <= v.len(),
        forall|b: int| 0 <= b < n ==> #[trigger] cat_at(off, v[b] as int) == 7,
    ensures
        cost_prefix(off, v, n) == 0,
    decreases n,
{
    if n > 0 {
        lemma_all_empty_cost_prefix(off, v, n - 1);
    }
}

/// A budget of at most `K` buys nothing: the base pass stays at the
/// coarsest offset and every band is the empty band.
pub proof fn lemma_small_budget_all_empty(v: Seq<i32>, budget: int)
    requires
        budget <= 32,
    ensures
        base_offset(v, budget) == start_offset(v),
        forall|b: int| 0 <= b < v.len() ==> #[trigger] cat_at(base_offset(v, budget), v[b] as int) == 7,
{
    let start = start_offset(v);
    if v.len() > 0 {
        lemma_extremes_bound(v, v.len() as int);
        assert forall|b: int| 0 <= b < v.len() implies #[trigger] cat_at(start, v[b] as int) == 7 by {
            assert((32 + start - v[b]) / 2 >= 7);
        }
        assert(min_prefix(v, v.len() as int) <= max_prefix(v, v.len() as int)) by {
            assert(min_prefix(v, v.len() as int) <= v[0] <= max_prefix(v, v.len() as int));
        }
    }
    lemma_all_empty_cost_prefix(start, v, v.len() as int);
    assert(is_base_offset(v, budget, start));
    lemma_base_offset_is(v, budget, start);
}

/// The half-bit cost of a raw category: the LUT for `0..=6`, `0` for the
/// empty band and above.
pub fn category_cost(raw_category: u8) -> (n: u32)
    ensures
        n == cost_of(raw_category as int),
{
    if raw_category >= EMPTY_BAND_CATEGORY {
        0
    } else {
        category_bit_cost(CategoryIndex::new_const(raw_category))
    }
}

/// The base category `clip((K + offset - v) >> 1, 0, 7)`.
pub fn base_category(offset: i32, v: i32) -> (c: u8)
    requires
        i32::MIN <= 32 + offset - v <= i32::MAX,
    ensures
        c == cat_at(offset as int, v as int),
{
    wide_base_category(offset as i64, v)
}

fn wide_base_category(offset: i64, v: i32) -> (c: u8)
    requires
        i32::MIN - 64 <= offset <= i32::MAX,
    ensures
        c == cat_at(offset as int, v as int),
{
    let t: i64 = 32 + offset - v as i64;
    let raw = t >> 1u32;
    proof {
        lemma_shr1_is_floor_half(t);
    }
    if raw < 0 {
        0
    } else if raw > 7 {
        7
    } else {
        raw as u8
    }
}

/// The base categories of every band at `offset`.
fn base_categories_at(offset: i64, v: &[i32]) -> (r: Vec<u8>)
    requires
        i32::MIN - 64 <= offset <= i32::MAX,
    ensures
        r@.len() == v@.len(),
        forall|b: int| 0 <= b < v@.len() ==> #[trigger] r@[b] == cat_at(offset as int, v@[b] as int),
{
    let mut r: Vec<u8> = Vec::new();
    let mut i: usize = 0;
    while i < v.len()
        invariant
            i <= v@.len(),
            i32::MIN - 64 <= offset <= i32::MAX,
            r@.len() == i,
            forall|b: int| 0 <= b < i ==> #[trigger] r@[b] == cat_at(offset as int, v@[b] as int),
        decreases v@.len() - i,
    {
        r.push(wide_base_category(offset, v[i]));
        i += 1;
    }
    r
}

/// The total base cost at `offset`.
fn total_cost_at(offset: i64, v: &[i32]) -> (n: i64)
    requires
        i32::MIN - 64 <= offset <= i32::MAX,
        v@.len() * 52 <= i32::MAX,
    ensures
        n == total_at(offset as int, v@),
{
    let mut acc: i64 = 0;
    let mut i: usize = 0;
    while i < v.len()
        invariant
            i <= v@.len(),
            v@.len() * 52 <= i32::MAX,
            i32::MIN - 64 <= offset <= i32::MAX,
            acc == cost_prefix(offset as int, v@, i as int),
        decreases v@.len() - i,
    {
        proof {
            lemma_cost_prefix_antitone(offset as int, offset as int, v@, i as int + 1);
        }
        let c = wide_base_category(offset, v[i]);
        acc = acc + category_cost(c) as i64;
        i += 1;
    }
    acc
}

/// The largest and smallest value (`0` for none).
pub(crate) fn value_extremes(v: &[i32]) -> (r: (i32, i32))
    ensures
        r.0 == max_prefix(v@, v@.len() as int),
        r.1 == min_prefix(v@, v@.len() as int),
        v@.len() > 0 ==> (forall|b: int| 0 <= b < v@.len() ==> r.1 <= #[trigger] v@[b] <= r.0),
        v@.len() > 0 ==> (exists|b: int| 0 <= b < v@.len() && #[trigger] v@[b] == r.1),
        v@.len() > 0 ==> (exists|b: int| 0 <= b < v@.len() && #[trigger] v@[b] == r.0),
{
    if v.len() == 0 {
        return (0, 0);
    }
    let mut hi = v[0];
    let mut lo = v[0];
    let mut i: usize = 1;
    while i < v.len()
        invariant
            1 <= i <= v@.len(),
            hi == max_prefix(v@, i as int),
            lo == min_prefix(v@, i as int),
            forall|b: int| 0 <= b < i ==> lo <= #[trigger] v@[b] <= hi,
            exists|b: int| 0 <= b < i && #[trigger] v@[b] == lo,
            exists|b: int| 0 <= b < i && #[trigger] v@[b] == hi,
        decreases v@.len() - i,
    {
        if v[i] > hi {
            hi = v[i];
        }
        if v[i] < lo {
            lo = v[i];
        }
        i += 1;
    }
    (hi, lo)
}

/// The coarsest offset, at which every band is empty: `max(v) - 18`
/// (`-18` for no bands).
fn coarsest_all_empty_offset(v: &[i32]) -> (o: i32)
    requires
        values_in_range(v@),
    ensures
        o == start_offset(v@),
{
    let (hi, _lo) = value_extremes(v);
    proof {
        if v@.len() > 0 {
            assert(v@[0] <= hi);
        }
    }
    hi - 18
}

/// The offset the base pass lands on for `(v, budget)`.
///
/// From the coarsest all-empty offset `max(v) - 18`, while
/// `total_cost + K < budget`, step down to the largest lower offset whose
/// total cost differs (none below `min(v) - 48`). The result is the
/// largest offset at which the pass may stop ([`may_stop_at`]).
pub fn assign_base_offset(v: &[i32], budget: i32) -> (o: i32)
    requires
        values_in_range(v@),
    ensures
        is_base_offset(v@, budget as int, o as int),
        o == base_offset(v@, budget as int),
        may_stop_at(v@, budget as int, o as int),
        forall|x: int| x > o ==> !#[trigger] may_stop_at(v@, budget as int, x),
{
    let (hi, lo) = value_extremes(v);
    if v.len() == 0 {
        let o = coarsest_all_empty_offset(v);
        proof {
            assert(is_base_offset(v@, budget as int, -18));
            lemma_base_offset_is(v@, budget as int, -18);
            assert forall|x: int| x > o implies !#[trigger] may_stop_at(v@, budget as int, x) by {
                lemma_base_offset_maximal(v@, budget as int, o as int, x);
            }
            lemma_base_offset_maximal(v@, budget as int, o as int, o as int);
        }
        return o;
    }
    let ghost start = start_offset(v@);
    let ghost fl = floor_offset(v@);
    proof {
        let b0 = choose|b: int| 0 <= b < v@.len() && #[trigger] v@[b] == lo;
        assert(v@[b0] >= i32::MIN + 48);
    }
    let floor: i64 = lo as i64 - 48;
    let mut offset: i64 = coarsest_all_empty_offset(v) as i64;
    loop
        invariant
            v@.len() > 0,
            values_in_range(v@),
            floor == fl,
            start == start_offset(v@),
            fl == floor_offset(v@),
            start == hi as int - 18,
            fl == lo as int - 48,
            lo <= hi,
            fl <= offset <= start,
            offset == start || total_at(offset as int + 1, v@) < total_at(offset as int, v@),
            forall|p: int| offset < p <= start ==> #[trigger] total_at(p, v@) + 32 < budget,
        ensures
            is_base_offset(v@, budget as int, offset as int),
        decreases offset - floor,
    {
        let cost = total_cost_at(offset, v);
        proof {
            lemma_total_at_antitone(offset as int, offset as int, v@);
        }
        if cost + 32 >= budget as i64 {
            break;
        }
        let mut next: i64 = offset - 1;
        let mut found = false;
        while next >= floor
            invariant_except_break
                !found,
            invariant
                values_in_range(v@),
                floor <= offset,
                floor - 1 <= next < offset,
                floor >= i32::MIN - 64,
                offset <= i32::MAX,
                cost == total_at(offset as int, v@),
                forall|p: int| next < p < offset ==> #[trigger] total_at(p, v@) == cost,
            ensures
                found ==> floor <= next < offset && total_at(next as int, v@) != cost,
                !found ==> next == floor - 1,
                forall|p: int| next < p < offset ==> #[trigger] total_at(p, v@) == cost,
            decreases next - floor + 1,
        {
            if total_cost_at(next, v) != cost {
                found = true;
                break;
            }
            next = next - 1;
        }
        if !found {
            proof {
                assert forall|p: int| fl <= p < offset implies #[trigger] total_at(p, v@)
                    == total_at(offset as int, v@) by {
                    assert(next < p);
                }
            }
            break;
        }
        proof {
            lemma_total_at_antitone(next as int, offset as int, v@);
            assert forall|p: int| next < p <= start implies #[trigger] total_at(p, v@) + 32
                < budget by {
                if p < offset {
                    assert(total_at(p, v@) == cost);
                }
            }
            if next + 1 < offset {
                assert(total_at(next as int + 1, v@) == cost);
            }
        }
        offset = next;
    }
    proof {
        lemma_base_offset_is(v@, budget as int, offset as int);
        assert forall|x: int| x > offset implies !#[trigger] may_stop_at(v@, budget as int, x) by {
            lemma_base_offset_maximal(v@, budget as int, offset as int, x);
        }
        lemma_base_offset_maximal(v@, budget as int, offset as int, offset as int);
    }
    offset as i32
}

/// The base categories for `(v, budget)`: stage 1 only.
pub fn assign_base_categories(v: &[i32], budget: i32) -> (r: Vec<u8>)
    requires
        values_in_range(v@),
    ensures
        r@.len() == v@.len(),
        forall|b: int|
            0 <= b < v@.len() ==> #[trigger] r@[b] == cat_at(
                base_offset(v@, budget as int),
                v@[b] as int,
            ),
{
    let o = assign_base_offset(v, budget);
    base_categories_at(o as i64, v)
}

/// A refined category assignment: the per-band categories and the bands
/// the refinement changed, most recent first.
#[derive(Debug, Clone, PartialEq, Eq)]
pub struct CategoryAssignment {
    /// Per-band categories (`0..=7`) after the base pass and refinement.
    pub categories: Vec<u8>,
    /// Bands the refinement changed, most recent first.
    pub adjusted: Vec<u32>,
}

impl CategoryAssignment {
    /// The per-band view: the empty band or a coded category; an error for
    /// a category above `7`.
    pub fn band_categories(&self) -> (r: core::result::Result<Vec<BandCategory>, Error>)
        ensures
            (forall|b: int| 0 <= b < self.categories@.len() ==> #[trigger] self.categories@[b] <= 7)
                ==> (r matches Ok(bands) && bands@.len() == self.categories@.len() && forall|b: int|
                0 <= b < bands@.len() ==> band_category_raw(#[trigger] bands@[b])
                == self.categories@[b]),
            (exists|b: int| 0 <= b < self.categories@.len() && #[trigger] self.categories@[b] > 7)
                ==> r == Err::<Vec<BandCategory>, Error>(
                Error::CategoryOutOfRange {
                    got: self.categories@[first_above_seven(self.categories@)],
                },
            ),
    {
        let mut out: Vec<BandCategory> = Vec::new();
        let mut i: usize = 0;
        while i < self.categories.len()
            invariant
                i <= self.categories@.len(),
                out@.len() == i,
                forall|b: int| 0 <= b < i ==> #[trigger] self.categories@[b] <= 7,
                forall|b: int|
                    0 <= b < i ==> band_category_raw(#[trigger] out@[b]) == self.categories@[b],
            decreases self.categories@.len() - i,
        {
            match BandCategory::from_raw(self.categories[i]) {
                Ok(c) => {
                    out.push(c);
                },
                Err(e) => {
                    proof {
                        lemma_first_above_seven(self.categories@, i as int);
                    }
                    return Err(e);
                },
            }
            i += 1;
        }
        Ok(out)
    }
}

/// The index of the first category above `7`.
pub open spec fn first_above_seven(c: Seq<u8>) -> int {
    choose|i: int|
        0 <= i < c.len() && c[i] > 7 && forall|j: int| 0 <= j < i ==> #[trigger] c[j] <= 7
}

proof fn lemma_first_above_seven(c: Seq<u8>, i: int)
    requires
        0 <= i < c.len(),
        c[i] > 7,
        forall|j: int| 0 <= j < i ==> #[trigger] c[j] <= 7,
    ensures
        first_above_seven(c) == i,
{
    let k = first_above_seven(c);
    assert(0 <= k < c.len() && c[k] > 7 && forall|j: int| 0 <= j < k ==> #[trigger] c[j] <= 7);
    if k < i {
        assert(c[k] <= 7);
    } else if i < k {
        assert(c[i] <= 7);
    }
}

/// The refinement state: categories, running total cost, steps spent and
/// the applied bands in application order.
pub type RefineState = (Seq<u8>, int, int, Seq<u32>);

/// Whether `t = K + off - v[b]` makes band `b` a refinement candidate:
/// an offset step down changes its clipped category.
pub open spec fn is_candidate(t: int) -> bool {
    t % 2 == 0 && 2 <= t <= 14
}

/// The category a candidate moves to.
pub open spec fn candidate_category(t: int) -> int {
    t / 2 - 1
}

/// One sweep over the bands from `b` at offset `off`, carrying whether a
/// candidate was seen and whether one was applied.
pub open spec fn refine_sweep(
    v: Seq<i32>,
    cap: int,
    max_steps: int,
    off: int,
    b: int,
    st: RefineState,
    any: bool,
    applied: bool,
) -> (RefineState, bool, bool)
    decreases v.len() - b,
{
    if b < 0 || b >= v.len() {
        (st, any, applied)
    } else {
        let t = 32 + off - v[b];
        if !is_candidate(t) {
            refine_sweep(v, cap, max_steps, off, b + 1, st, any, applied)
        } else if st.2 >= max_steps {
            (st, true, applied)
        } else {
            let new = candidate_category(t);
            let delta = cost_of(new) - cost_of(st.0[b] as int);
            if st.1 + delta <= cap {
                refine_sweep(
                    v,
                    cap,
                    max_steps,
                    off,
                    b + 1,
                    (st.0.update(b, new as u8), st.1 + delta, st.2 + 1, st.3.push(b as u32)),
                    true,
                    true,
                )
            } else {
                refine_sweep(
                    v,
                    cap,
                    max_steps,
                    off,
                    b + 1,
                    (st.0, st.1, st.2 + 1, st.3),
                    true,
                    applied,
                )
            }
        }
    }
}

/// The refinement walk from offset `off` down to `floor`: sweep after
/// sweep while steps remain, stopping after a sweep whose candidates all
/// failed.
pub open spec fn refine_walk(
    v: Seq<i32>,
    cap: int,
    max_steps: int,
    floor: int,
    off: int,
    st: RefineState,
) -> RefineState
    decreases off - floor + 1,
{
    if !(st.2 < max_steps && off >= floor) {
        st
    } else {
        let (st2, any, applied) = refine_sweep(v, cap, max_steps, off, 0, st, false, false);
        if any && !applied {
            st2
        } else {
            refine_walk(v, cap, max_steps, floor, off - 1, st2)
        }
    }
}

/// The base categories at `off`.
pub open spec fn base_cats(off: int, v: Seq<i32>) -> Seq<u8> {
    Seq::new(v.len(), |b: int| cat_at(off, v[b] as int) as u8)
}

/// The refinement outcome for `(v, budget)` from `base_offset` with bound
/// `m`.
pub open spec fn refine_outcome(v: Seq<i32>, budget: int, base_offset: int, m: int) -> RefineState {
    refine_walk(
        v,
        2 * budget - 6,
        if m >= 1 {
            m - 1
        } else {
            0
        },
        floor_offset(v),
        base_offset,
        (base_cats(base_offset, v), total_at(base_offset, v), 0, Seq::empty()),
    )
}

/// The total cost of a category list.
pub open spec fn cats_cost(c: Seq<u8>, n: int) -> int
    decreases n,
{
    if n <= 0 {
        0
    } else {
        cats_cost(c, n - 1) + cost_of(c[n - 1] as int)
    }
}

proof fn lemma_cats_cost_bounds(c: Seq<u8>, n: int)
    requires
        0 <= n <= c.len(),
    ensures
        0 <= cats_cost(c, n) <= 52 * n,
    decreases n,
{
    if n > 0 {
        lemma_cats_cost_bounds(c, n - 1);
    }
}

proof fn lemma_cats_cost_update(c: Seq<u8>, n: int, b: int, x: u8)
    requires
        0 <= b < n <= c.len(),
    ensures
        cats_cost(c.update(b, x), n) == cats_cost(c, n) - cost_of(c[b] as int) + cost_of(x as int),
    decreases n,
{
    if n - 1 > b {
        lemma_cats_cost_update(c, n - 1, b, x);
    } else {
        lemma_cats_cost_same_prefix(c, c.update(b, x), n - 1);
    }
}

proof fn lemma_cats_cost_same_prefix(c: Seq<u8>, d: Seq<u8>, n: int)
    requires
        0 <= n <= c.len(),
        n <= d.len(),
        forall|i: int| 0 <= i < n ==> c[i] == d[i],
    ensures
        cats_cost(c, n) == cats_cost(d, n),
    decreases n,
{
    if n > 0 {
        lemma_cats_cost_same_prefix(c, d, n - 1);
    }
}

proof fn lemma_base_cats_cost(off: int, v: Seq<i32>, n: int)
    requires
        0 <= n <= v.len(),
    ensures
        cats_cost(base_cats(off, v), n) == cost_prefix(off, v, n),
    decreases n,
{
    if n > 0 {
        lemma_base_cats_cost(off, v, n - 1);
        lemma_cat_at_monotone(off, off, v[n - 1] as int);
    }
}

/// Whether `t = 32 + off - v[b]` makes band `b` a refinement candidate
/// at offset `off`: `t` even and in `2..=14`.
pub open spec fn candidate_at(v: Seq<i32>, off: int, b: int) -> bool {
    (32 + off - v[b]) % 2 == 0 && 2 <= 32 + off - v[b] <= 14
}

proof fn lemma_sweep_keeps_applied(
    v: Seq<i32>,
    cap: int,
    max_steps: int,
    off: int,
    b: int,
    st: RefineState,
    any: bool,
    applied: bool,
)
    ensures
        refine_sweep(v, cap, max_steps, off, b, st, any, applied).0.3.len() >= st.3.len(),
        forall|k: int|
            0 <= k < st.3.len() ==> #[trigger] refine_sweep(
                v,
                cap,
                max_steps,
                off,
                b,
                st,
                any,
                applied,
            ).0.3[k] == st.3[k],
    decreases v.len() - b,
{
    if b >= 0 && b < v.len() {
        let t = 32 + off - v[b];
        if !is_candidate(t) {
            lemma_sweep_keeps_applied(v, cap, max_steps, off, b + 1, st, any, applied);
        } else if st.2 < max_steps {
            let new = candidate_category(t);
            let delta = cost_of(new) - cost_of(st.0[b] as int);
            if st.1 + delta <= cap {
                let st2 = (st.0.update(b, new as u8), st.1 + delta, st.2 + 1, st.3.push(b as u32));
                lemma_sweep_keeps_applied(v, cap, max_steps, off, b + 1, st2, true, true);
            } else {
                let st2 = (st.0, st.1, st.2 + 1, st.3);
                lemma_sweep_keeps_applied(v, cap, max_steps, off, b + 1, st2, true, applied);
            }
        }
    }
}

proof fn lemma_walk_keeps_applied(
    v: Seq<i32>,
    cap: int,
    max_steps: int,
    floor: int,
    off: int,
    st: RefineState,
)
    ensures
        refine_walk(v, cap, max_steps, floor, off, st).3.len() >= st.3.len(),
        forall|k: int|
            0 <= k < st.3.len() ==> #[trigger] refine_walk(v, cap, max_steps, floor, off, st).3[k]
                == st.3[k],
    decreases off - floor + 1,
{
    if st.2 < max_steps && off >= floor {
        let r = refine_sweep(v, cap, max_steps, off, 0, st, false, false);
        lemma_sweep_keeps_applied(v, cap, max_steps, off, 0, st, false, false);
        if !(r.1 && !r.2) {
            lemma_walk_keeps_applied(v, cap, max_steps, floor, off - 1, r.0);
        }
    }
}

proof fn lemma_sweep_skips_to(
    v: Seq<i32>,
    cap: int,
    max_steps: int,
    off: int,
    b: int,
    b0: int,
    st: RefineState,
    any: bool,
    applied: bool,
)
    requires
        0 <= b <= b0 < v.len(),
        forall|c: int| b <= c < b0 ==> !#[trigger] candidate_at(v, off, c),
    ensures
        refine_sweep(v, cap, max_steps, off, b, st, any, applied) == refine_sweep(
            v,
            cap,
            max_steps,
            off,
            b0,
            st,
            any,
            applied,
        ),
    decreases b0 - b,
{
    if b < b0 {
        assert(!candidate_at(v, off, b));
        lemma_sweep_skips_to(v, cap, max_steps, off, b + 1, b0, st, any, applied);
    }
}

/// The refinement walk's first sweep runs at the base offset itself:
/// with at least one refinement step (`m >= 2`), when band `b0` is the
/// lowest band with `t = 32 + base_offset - v[b0]` even and in `2..=14`,
/// and moving it from category `t / 2` to `t / 2 - 1` keeps the base
/// total within the cap `2 × budget - 6`, then `b0` is the first band
/// applied (the last entry of the adjusted list).
pub proof fn lemma_refine_first_sweep_at_base(
    v: Seq<i32>,
    budget: int,
    base_offset: int,
    m: int,
    b0: int,
)
    requires
        m >= 2,
        0 <= b0 < v.len(),
        (32 + base_offset - v[b0]) % 2 == 0,
        2 <= 32 + base_offset - v[b0] <= 14,
        forall|b: int|
            0 <= b < b0 ==> !((32 + base_offset - v[b]) % 2 == 0 && 2 <= 32 + base_offset - v[b]
                <= 14),
        total_at(base_offset, v) + cost_of((32 + base_offset - v[b0]) / 2 - 1) - cost_of(
            (32 + base_offset - v[b0]) / 2,
        ) <= 2 * budget - 6,
    ensures
        refine_outcome(v, budget, base_offset, m).3.len() >= 1,
        refine_outcome(v, budget, base_offset, m).3[0] == b0 as u32,
{
    let cap = 2 * budget - 6;
    let ms = m - 1;
    let fl = floor_offset(v);
    let st: RefineState = (base_cats(base_offset, v), total_at(base_offset, v), 0, Seq::empty());
    lemma_extremes_bound(v, v.len() as int);
    assert(base_offset >= fl);
    let t = 32 + base_offset - v[b0];
    assert(is_candidate(t));
    assert(st.0[b0] == cat_at(base_offset, v[b0] as int) as u8);
    assert(cat_at(base_offset, v[b0] as int) == t / 2);
    assert forall|c: int| 0 <= c < b0 implies !#[trigger] candidate_at(v, base_offset, c) by {}
    lemma_sweep_skips_to(v, cap, ms, base_offset, 0, b0, st, false, false);
    let new = candidate_category(t);
    let st2: RefineState = (
        st.0.update(b0, new as u8),
        st.1 + cost_of(new) - cost_of(st.0[b0] as int),
        1,
        Seq::empty().push(b0 as u32),
    );
    assert(refine_sweep(v, cap, ms, base_offset, b0, st, false, false) == refine_sweep(
        v,
        cap,
        ms,
        base_offset,
        b0 + 1,
        st2,
        true,
        true,
    ));
    lemma_sweep_keeps_applied(v, cap, ms, base_offset, b0 + 1, st2, true, true);
    let r = refine_sweep(v, cap, ms, base_offset, 0, st, false, false);
    assert(st2.3[0] == b0 as u32);
    assert(refine_sweep(v, cap, ms, base_offset, b0 + 1, st2, true, true).0.3[0] == st2.3[0]);
    assert(r.0.3[0] == b0 as u32);
    if !(r.1 && !r.2) {
        lemma_walk_keeps_applied(v, cap, ms, fl, base_offset - 1, r.0);
    }
}

/// The refinement walk from a base assignment at `base_offset`.
///
/// Visits unit offset steps below the base offset; at each, the bands
/// with even `t = K + off - v[b]` whose clipped category the step
/// changes are candidates, in ascending band order. Each candidate spends
/// one of the `M - 1` steps and applies while the total cost stays within
/// `2 × budget - 6`. The walk ends when the steps are spent, the offset
/// passes `min(v) - 48`, or a sweep's candidates all failed.
///
/// The categories stay in `0..=7`; at most `M - 1` bands change, each
/// only below its base category and each listed among the adjusted
/// bands; once a change applied, the total cost is within the cap, and
/// with no change the categories are the base assignment's. A base
/// assignment already over the cap is left as it is.
pub fn refine_categories(v: &[i32], budget: i32, base_offset: i32, refinement_bound: u32) -> (a:
    CategoryAssignment)
    requires
        values_in_range(v@),
    ensures
        a.categories@ == refine_outcome(
            v@,
            budget as int,
            base_offset as int,
            refinement_bound as int,
        ).0,
        a.adjusted@ == refine_outcome(
            v@,
            budget as int,
            base_offset as int,
            refinement_bound as int,
        ).3.reverse(),
        a.categories@.len() == v@.len(),
        forall|b: int| 0 <= b < a.categories@.len() ==> #[trigger] a.categories@[b] <= 7,
        refinement_bound >= 1 ==> a.adjusted@.len() <= refinement_bound - 1,
        refinement_bound == 0 ==> a.adjusted@.len() == 0,
        a.adjusted@.len() > 0 ==> cats_cost(a.categories@, v@.len() as int) <= 2 * budget - 6,
        a.adjusted@.len() == 0 ==> a.categories@ == base_cats(base_offset as int, v@),
        forall|b: int|
            0 <= b < a.categories@.len() ==> #[trigger] a.categories@[b] <= base_cats(
                base_offset as int,
                v@,
            )[b],
        forall|b: int|
            0 <= b < a.categories@.len() && #[trigger] a.categories@[b] != base_cats(
                base_offset as int,
                v@,
            )[b] ==> a.adjusted@.contains(b as u32),
        cats_cost(a.categories@, v@.len() as int) <= if total_at(base_offset as int, v@) > 2
            * budget - 6 {
            total_at(base_offset as int, v@)
        } else {
            2 * budget - 6
        },
        total_at(base_offset as int, v@) > 2 * budget - 6 ==> a.adjusted@.len() == 0
            && a.categories@ == base_cats(base_offset as int, v@),
{
    let ghost vs = v@;
    let mut categories = base_categories_at(base_offset as i64, v);
    proof {
        assert(categories@ =~= base_cats(base_offset as int, v@));
        lemma_base_cats_cost(base_offset as int, v@, v@.len() as int);
        lemma_total_at_antitone(base_offset as int, base_offset as int, v@);
    }
    let mut total: i64 = total_cost_at(base_offset as i64, v);
    let cap: i64 = 2 * budget as i64 - 6;
    let max_steps: u32 = if refinement_bound >= 1 {
        refinement_bound - 1
    } else {
        0
    };
    let mut steps: u32 = 0;
    let mut offset: i64 = base_offset as i64;
    let mut adjusted_asc: Vec<u32> = Vec::new();
    let (_, lo) = value_extremes(v);
    proof {
        if v@.len() > 0 {
            let b0 = choose|b: int| 0 <= b < v@.len() && #[trigger] v@[b] == lo;
            assert(v@[b0] >= i32::MIN + 48);
        }
    }
    let floor: i64 = lo as i64 - 48;
    let ghost init: RefineState = (categories@, total as int, 0int, Seq::<u32>::empty());
    loop
        invariant_except_break
            i32::MIN <= floor,
            vs == v@,
            values_in_range(v@),
            floor == floor_offset(v@),
            cap == 2 * budget - 6,
            max_steps == (if refinement_bound >= 1 {
                refinement_bound - 1
            } else {
                0
            }),
            init == (base_cats(base_offset as int, v@), total_at(base_offset as int, v@), 0int, Seq::<u32>::empty()),
            i32::MIN - 64 <= offset <= base_offset,
            steps <= max_steps,
            categories@.len() == v@.len(),
            forall|b: int| 0 <= b < categories@.len() ==> #[trigger] categories@[b] <= 7,
            total == cats_cost(categories@, v@.len() as int),
            0 <= total <= 52 * v@.len(),
            adjusted_asc@.len() <= steps,
            adjusted_asc@.len() > 0 ==> total <= cap,
            adjusted_asc@.len() == 0 ==> categories@ == base_cats(base_offset as int, v@),
            forall|b: int|
                0 <= b < categories@.len() ==> #[trigger] categories@[b] <= base_cats(
                    base_offset as int,
                    v@,
                )[b],
            forall|b: int|
                0 <= b < categories@.len() && #[trigger] categories@[b] != base_cats(
                    base_offset as int,
                    v@,
                )[b] ==> adjusted_asc@.contains(b as u32),
            total_at(base_offset as int, v@) > cap ==> adjusted_asc@.len() == 0,
            refine_walk(v@, cap as int, max_steps as int, floor as int, base_offset as int, init)
                == refine_walk(
                v@,
                cap as int,
                max_steps as int,
                floor as int,
                offset as int,
                (categories@, total as int, steps as int, adjusted_asc@),
            ),
        ensures
            categories@ == refine_outcome(v@, budget as int, base_offset as int, refinement_bound as int).0,
            adjusted_asc@ == refine_outcome(v@, budget as int, base_offset as int, refinement_bound as int).3,
            categories@.len() == v@.len(),
            forall|b: int| 0 <= b < categories@.len() ==> #[trigger] categories@[b] <= 7,
            adjusted_asc@.len() <= max_steps,
            adjusted_asc@.len() > 0 ==> cats_cost(categories@, v@.len() as int) <= cap,
            adjusted_asc@.len() == 0 ==> categories@ == base_cats(base_offset as int, v@),
            forall|b: int|
                0 <= b < categories@.len() ==> #[trigger] categories@[b] <= base_cats(
                    base_offset as int,
                    v@,
                )[b],
            forall|b: int|
                0 <= b < categories@.len() && #[trigger] categories@[b] != base_cats(
                    base_offset as int,
                    v@,
                )[b] ==> adjusted_asc@.contains(b as u32),
            total_at(base_offset as int, v@) > cap ==> adjusted_asc@.len() == 0,
        decreases offset - floor + 1,
    {
        if !(steps < max_steps && offset >= floor) {
            break;
        }
        let ghost cur0: RefineState = (categories@, total as int, steps as int, adjusted_asc@);
        let ghost off0 = offset;
        let mut any = false;
        let mut applied = false;
        let mut i: usize = 0;
        while i < v.len()
            invariant
                vs == v@,
                values_in_range(v@),
                i32::MIN <= floor,
                cap == 2 * budget - 6,
                steps <= max_steps,
                floor <= offset <= base_offset,
                i <= v@.len(),
                categories@.len() == v@.len(),
                forall|b: int| 0 <= b < categories@.len() ==> #[trigger] categories@[b] <= 7,
                total == cats_cost(categories@, v@.len() as int),
                0 <= total <= 52 * v@.len(),
                adjusted_asc@.len() <= steps,
                adjusted_asc@.len() > 0 ==> total <= cap,
                adjusted_asc@.len() == 0 ==> categories@ == base_cats(base_offset as int, v@),
                forall|b: int|
                    0 <= b < categories@.len() ==> #[trigger] categories@[b] <= base_cats(
                        base_offset as int,
                        v@,
                    )[b],
                forall|b: int|
                    0 <= b < categories@.len() && #[trigger] categories@[b] != base_cats(
                        base_offset as int,
                        v@,
                    )[b] ==> adjusted_asc@.contains(b as u32),
                total_at(base_offset as int, v@) > cap ==> adjusted_asc@.len() == 0,
                refine_sweep(v@, cap as int, max_steps as int, offset as int, 0, cur0, false, false)
                    == refine_sweep(
                    v@,
                    cap as int,
                    max_steps as int,
                    offset as int,
                    i as int,
                    (categories@, total as int, steps as int, adjusted_asc@),
                    any,
                    applied,
                ),
            ensures
                categories@.len() == v@.len(),
                forall|b: int| 0 <= b < categories@.len() ==> #[trigger] categories@[b] <= 7,
                total == cats_cost(categories@, v@.len() as int),
                0 <= total <= 52 * v@.len(),
                steps <= max_steps,
                adjusted_asc@.len() <= steps,
                adjusted_asc@.len() > 0 ==> total <= cap,
                adjusted_asc@.len() == 0 ==> categories@ == base_cats(base_offset as int, v@),
                forall|b: int|
                    0 <= b < categories@.len() ==> #[trigger] categories@[b] <= base_cats(
                        base_offset as int,
                        v@,
                    )[b],
                forall|b: int|
                    0 <= b < categories@.len() && #[trigger] categories@[b] != base_cats(
                        base_offset as int,
                        v@,
                    )[b] ==> adjusted_asc@.contains(b as u32),
                total_at(base_offset as int, v@) > cap ==> adjusted_asc@.len() == 0,
                refine_sweep(v@, cap as int, max_steps as int, offset as int, 0, cur0, false, false)
                    == ((categories@, total as int, steps as int, adjusted_asc@), any, applied),
            decreases v@.len() - i,
        {
            let t: i64 = 32 + offset - v[i] as i64;
            proof {
                lemma_shr1_is_floor_half(t);
                lemma_shr1_is_floor_half((t - 1) as i64);
            }
            let even = t % 2 == 0;
            let newc: i64 = (t - 1) >> 1u32;
            let half: i64 = t >> 1u32;
            let current: i64 = if half < 0 {
                0
            } else if half > 7 {
                7
            } else {
                half
            };
            let candidate = even && 0 <= newc && newc <= 7 && newc != current;
            proof {
                assert(candidate == is_candidate(t as int));
                if candidate {
                    assert(newc == candidate_category(t as int));
                }
            }
            if candidate {
                proof {
                    let st: RefineState = (categories@, total as int, steps as int, adjusted_asc@);
                    if steps >= max_steps {
                        assert(refine_sweep(v@, cap as int, max_steps as int, offset as int, i as int, st, any, applied) == (st, true, applied));
                        assert(refine_sweep(v@, cap as int, max_steps as int, offset as int, i as int, st, true, applied) == (st, true, applied));
                    }
                }
                any = true;
                if steps >= max_steps {
                    break;
                }
                steps += 1;
                let old_cost = category_cost(categories[i]);
                let new_cost = category_cost(newc as u8);
                let delta: i64 = new_cost as i64 - old_cost as i64;
                proof {
                    lemma_cat_at_monotone(offset as int, base_offset as int, v@[i as int] as int);
                    assert(newc < base_cats(base_offset as int, v@)[i as int]);
                    if adjusted_asc@.len() == 0 {
                        lemma_cost_of_antitone(newc as int, categories@[i as int] as int);
                        lemma_base_cats_cost(base_offset as int, v@, v@.len() as int);
                    }
                }
                if total + delta <= cap {
                    proof {
                        lemma_cats_cost_update(categories@, v@.len() as int, i as int, newc as u8);
                        lemma_cats_cost_bounds(categories@.update(i as int, newc as u8), v@.len() as int);
                    }
                    let ghost before = adjusted_asc@;
                    categories[i] = newc as u8;
                    total = total + delta;
                    adjusted_asc.push(i as u32);
                    applied = true;
                    proof {
                        assert(adjusted_asc@[before.len() as int] == i as u32);
                        assert forall|x: u32| before.contains(x) implies adjusted_asc@.contains(x) by {
                            let j = choose|j: int| 0 <= j < before.len() && before[j] == x;
                            assert(adjusted_asc@[j] == x);
                        }
                    }
                }
            }
            i += 1;
        }
        proof {
            assert(refine_walk(v@, cap as int, max_steps as int, floor as int, off0 as int, cur0) == (if any && !applied {
                (categories@, total as int, steps as int, adjusted_asc@)
            } else {
                refine_walk(v@, cap as int, max_steps as int, floor as int, off0 - 1, (categories@, total as int, steps as int, adjusted_asc@))
            }));
        }
        offset = offset - 1;
        if any && !applied {
            break;
        }
    }
    let mut adjusted: Vec<u32> = Vec::new();
    let n = adjusted_asc.len();
    let mut k: usize = 0;
    while k < n
        invariant
            n == adjusted_asc@.len(),
            k <= n,
            adjusted@.len() == k,
            forall|j: int| 0 <= j < k ==> #[trigger] adjusted@[j] == adjusted_asc@[n - 1 - j],
        decreases n - k,
    {
        adjusted.push(adjusted_asc[n - 1 - k]);
        k += 1;
    }
    assert(adjusted@ =~= adjusted_asc@.reverse());
    proof {
        lemma_base_cats_cost(base_offset as int, v@, v@.len() as int);
        assert forall|x: u32| adjusted_asc@.contains(x) implies adjusted@.contains(x) by {
            let j = choose|j: int| 0 <= j < adjusted_asc@.len() && adjusted_asc@[j] == x;
            assert(adjusted@[n - 1 - j] == x);
        }
    }
    CategoryAssignment { categories, adjusted }
}

/// Assign the per-band categories of `(v, budget)`: the base pass, then
/// the refinement bounded by `refinement_bound`.
pub fn assign_categories(v: &[i32], budget: i32, refinement_bound: u32) -> (a: CategoryAssignment)
    requires
        values_in_range(v@),
    ensures
        a.categories@ == refine_outcome(
            v@,
            budget as int,
            base_offset(v@, budget as int),
            refinement_bound as int,
        ).0,
        a.adjusted@ == refine_outcome(
            v@,
            budget as int,
            base_offset(v@, budget as int),
            refinement_bound as int,
        ).3.reverse(),
        a.categories@.len() == v@.len(),
        forall|b: int| 0 <= b < a.categories@.len() ==> #[trigger] a.categories@[b] <= 7,
{
    let base = assign_base_offset(v, budget);
    refine_categories(v, budget, base, refinement_bound)
}

/// The total half-bit cost of a category list.
pub fn total_cost(categories: &[u8]) -> (n: u32)
    requires
        cats_cost(categories@, categories@.len() as int) <= u32::MAX,
    ensures
        n == cats_cost(categories@, categories@.len() as int),
{
    let mut acc: u32 = 0;
    let mut i: usize = 0;
    while i < categories.len()
        invariant
            i <= categories@.len(),
            cats_cost(categories@, categories@.len() as int) <= u32::MAX,
            acc == cats_cost(categories@, i as int),
        decreases categories@.len() - i,
    {
        proof {
            lemma_cats_cost_prefix_le(categories@, i as int + 1, categories@.len() as int);
        }
        acc = acc + category_cost(categories[i]);
        i += 1;
    }
    acc
}

proof fn lemma_cats_cost_prefix_le(c: Seq<u8>, n: int, m: int)
    requires
        0 <= n <= m <= c.len(),
    ensures
        cats_cost(c, n) <= cats_cost(c, m),
    decreases m - n,
{
    if n < m {
        lemma_cats_cost_prefix_le(c, n, m - 1);
    }
}

/// The per-band view of the assignment of `(v, budget, refinement_bound)`.
pub fn assign_band_categories(v: &[i32], budget: i32, refinement_bound: u32) -> (r:
    core::result::Result<Vec<BandCategory>, Error>)
    requires
        values_in_range(v@),
    ensures
        r matches Ok(bands) && bands@.len() == v@.len() && forall|b: int|
            0 <= b < v@.len() ==> band_category_raw(#[trigger] bands@[b]) == refine_outcome(
                v@,
                budget as int,
                base_offset(v@, budget as int),
                refinement_bound as int,
            ).0[b],
{
    let a = assign_categories(v, budget, refinement_bound);
    a.band_categories()
}

} // verus!
