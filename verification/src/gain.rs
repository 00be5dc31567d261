//! Gain-envelope segments and their piecewise-constant hold.
//!
//! A segment `(position, gain_index)` sets the gain from sub-block
//! `position` onward. Segments take effect in ascending position order
//! (input order among equal positions), so each sub-block is held by the
//! last segment at or before it; sub-blocks before every segment keep
//! unity gain. A gain index must lie in the scale ladder's `-63..=63`
//! range; the first segment in that order outside it is an error.
use crate::Error;
use vstd::prelude::*;

verus! {

/// One gain-envelope segment: the sub-block at which the gain changes
/// and the signed step on the `2^(index / 2)` ladder.
#[derive(Debug, Clone, Copy, PartialEq, Eq)]
pub struct GainSegment {
    /// Sub-block index at which this segment's gain takes effect.
    pub position: u32,
    /// Signed gain step on the ladder.
    pub gain_index: i8,
}

/// The smallest exponent the `2^(k / 2)` ladder reaches.
pub const SCALE_EXPONENT_MIN: i8 = -63;

/// The largest exponent the `2^(k / 2)` ladder reaches.
pub const SCALE_EXPONENT_MAX: i8 = 63;

/// The ladder element of exponent `0` (the `1.0` centre).
pub const SCALE_EXPONENT_BIAS: usize = 63;

/// Address of the head of the `2^(k / 2)` ladder in the decoder's data
/// section.
pub const SQRT2_LADDER_RVA: u32 = 0x93f8;

/// Address of the gain applier's positive-branch window, at the ladder's
/// `1.0` centre.
pub const GAIN_POS_WINDOW_RVA: u32 = 0x94f4;

/// Element offset of the positive-branch window inside the ladder:
/// `(0x94f4 - 0x93f8) / 4`, the centre.
pub const GAIN_POS_WINDOW_ELEMENT_OFFSET: usize = 63;

/// The window offset is the ladder distance of the two addresses, in
/// 4-byte elements, and it is the ladder's centre.
pub proof fn lemma_pos_window_is_centre()
    ensures
        GAIN_POS_WINDOW_ELEMENT_OFFSET == (GAIN_POS_WINDOW_RVA - SQRT2_LADDER_RVA) / 4,
        GAIN_POS_WINDOW_ELEMENT_OFFSET == SCALE_EXPONENT_BIAS,
        SCALE_EXPONENT_BIAS == -SCALE_EXPONENT_MIN,
{
}

/// Whether a gain index lies outside the ladder.
pub open spec fn index_out_of_range(g: i8) -> bool {
    g < SCALE_EXPONENT_MIN || g > SCALE_EXPONENT_MAX
}

/// Whether segment `j` comes at or before segment `k` in application
/// order: by position, then by input order.
pub open spec fn applied_before(segs: Seq<GainSegment>, j: int, k: int) -> bool {
    segs[j].position < segs[k].position || (segs[j].position == segs[k].position && j <= k)
}

/// Whether segment `j` holds sub-block `b`: it starts at or before `b`
/// and is the last such segment in application order.
pub open spec fn holds_block(segs: Seq<GainSegment>, b: int, j: int) -> bool {
    &&& 0 <= j < segs.len()
    &&& segs[j].position <= b
    &&& forall|k: int|
        0 <= k < segs.len() && segs[k].position <= b ==> #[trigger] applied_before(segs, k, j)
}

/// Whether segment `j` is the first one outside the ladder in
/// application order.
pub open spec fn first_out_of_range(segs: Seq<GainSegment>, j: int) -> bool {
    &&& 0 <= j < segs.len()
    &&& index_out_of_range(segs[j].gain_index)
    &&& forall|k: int|
        0 <= k < segs.len() && index_out_of_range(segs[k].gain_index) ==> #[trigger] applied_before(
            segs,
            j,
            k,
        )
}

/// At most one segment holds a sub-block.
pub proof fn lemma_holder_unique(segs: Seq<GainSegment>, b: int, j1: int, j2: int)
    requires
        holds_block(segs, b, j1),
        holds_block(segs, b, j2),
    ensures
        j1 == j2,
{
    assert(applied_before(segs, j1, j2));
    assert(applied_before(segs, j2, j1));
}

/// The first segment outside the ladder is unique.
pub proof fn lemma_first_out_of_range_unique(segs: Seq<GainSegment>, j1: int, j2: int)
    requires
        first_out_of_range(segs, j1),
        first_out_of_range(segs, j2),
    ensures
        j1 == j2,
{
    assert(applied_before(segs, j1, j2));
    assert(applied_before(segs, j2, j1));
}

/// The segment holding sub-block `b`, if any.
fn holder_of(segs: &[GainSegment], b: usize) -> (r: Option<usize>)
    ensures
        r is None <==> forall|k: int| 0 <= k < segs@.len() ==> segs@[k].position > b,
        r matches Some(j) ==> holds_block(segs@, b as int, j as int),
{
    let mut best: Option<usize> = None;
    let mut k: usize = 0;
    while k < segs.len()
        invariant
            k <= segs@.len(),
            best is None <==> forall|i: int| 0 <= i < k ==> segs@[i].position > b,
            best matches Some(j) ==> j < k && segs@[j as int].position <= b && forall|i: int|
                0 <= i < k && segs@[i].position <= b ==> #[trigger] applied_before(
                    segs@,
                    i,
                    j as int,
                ),
        decreases segs@.len() - k,
    {
        let p = segs[k].position;
        if (p as u64) <= (b as u64) {
            let take = match best {
                None => true,
                Some(j) => p >= segs[j].position,
            };
            proof {
                if take {
                    assert forall|i: int|
                        0 <= i < k + 1 && segs@[i].position <= b implies #[trigger] applied_before(
                        segs@,
                        i,
                        k as int,
                    ) by {
                        if i < k {
                            if let Some(j) = best {
                                assert(applied_before(segs@, i, j as int));
                            }
                        }
                    }
                } else {
                    let j = best->0;
                    assert(applied_before(segs@, k as int, j as int));
                }
            }
            if take {
                best = Some(k);
            }
        }
        k += 1;
    }
    best
}

/// The gain index holding each of `block_count` sub-blocks (`None` for
/// unity gain before every segment), or
/// [`Error::ScaleExponentOutOfRange`] with the gain index of the first
/// segment, in application order, outside the ladder.
pub fn gain_hold_indices(segs: &[GainSegment], block_count: usize) -> (r: core::result::Result<
    Vec<Option<i8>>,
    Error,
>)
    ensures
        (exists|k: int| 0 <= k < segs@.len() && index_out_of_range(#[trigger] segs@[k].gain_index))
            ==> exists|j: int| #[trigger] first_out_of_range(segs@, j),
        forall|j: int|
            first_out_of_range(segs@, j) ==> r == Err::<Vec<Option<i8>>, Error>(
                Error::ScaleExponentOutOfRange { got: segs@[j].gain_index },
            ),
        (forall|k: int| 0 <= k < segs@.len() ==> !index_out_of_range(#[trigger] segs@[k].gain_index))
            ==> (r matches Ok(v) && v@.len() == block_count && forall|b: int|
            0 <= b < block_count ==> {
                &&& (#[trigger] v@[b] is None <==> forall|k: int|
                    0 <= k < segs@.len() ==> segs@[k].position > b)
                &&& forall|j: int| holds_block(segs@, b, j) ==> v@[b] == Some(segs@[j].gain_index)
            }),
{
    let mut bad: Option<usize> = None;
    let mut k: usize = 0;
    while k < segs.len()
        invariant
            k <= segs@.len(),
            bad is None <==> forall|i: int|
                0 <= i < k ==> !index_out_of_range(#[trigger] segs@[i].gain_index),
            bad matches Some(j) ==> j < k && index_out_of_range(segs@[j as int].gain_index)
                && forall|i: int|
                0 <= i < k && index_out_of_range(segs@[i].gain_index) ==> #[trigger] applied_before(
                    segs@,
                    j as int,
                    i,
                ),
        decreases segs@.len() - k,
    {
        let g = segs[k].gain_index;
        if g < SCALE_EXPONENT_MIN || g > SCALE_EXPONENT_MAX {
            let take = match bad {
                None => true,
                Some(j) => segs[k].position < segs[j].position,
            };
            proof {
                if take {
                    assert forall|i: int|
                        0 <= i < k + 1 && index_out_of_range(segs@[i].gain_index) implies #[trigger] applied_before(
                        segs@,
                        k as int,
                        i,
                    ) by {
                        if i < k {
                            let j = bad->0;
                            assert(applied_before(segs@, j as int, i));
                        }
                    }
                } else {
                    let j = bad->0;
                    assert(applied_before(segs@, j as int, k as int));
                }
            }
            if take {
                bad = Some(k);
            }
        }
        k += 1;
    }
    if let Some(j) = bad {
        proof {
            assert(first_out_of_range(segs@, j as int));
            assert forall|j2: int| first_out_of_range(segs@, j2) implies j2 == j by {
                lemma_first_out_of_range_unique(segs@, j as int, j2);
            }
        }
        return Err(Error::ScaleExponentOutOfRange { got: segs[j].gain_index });
    }
    let mut out: Vec<Option<i8>> = Vec::new();
    let mut b: usize = 0;
    while b < block_count
        invariant
            b <= block_count,
            out@.len() == b,
            forall|c: int|
                0 <= c < b ==> {
                    &&& (#[trigger] out@[c] is None <==> forall|k: int|
                        0 <= k < segs@.len() ==> segs@[k].position > c)
                    &&& forall|j: int| holds_block(segs@, c, j) ==> out@[c] == Some(segs@[j].gain_index)
                },
        decreases block_count - b,
    {
        let h = holder_of(segs, b);
        let g = match h {
            None => None,
            Some(j) => Some(segs[j].gain_index),
        };
        proof {
            assert forall|j: int| holds_block(segs@, b as int, j) implies g == Some(segs@[j].gain_index) by {
                let jj = h->0;
                lemma_holder_unique(segs@, b as int, jj as int, j);
            }
        }
        out.push(g);
        b += 1;
    }
    Ok(out)
}

} // verus!
