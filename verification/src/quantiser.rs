//! The quantiser-index clip: a raw index is clamped below the
//! category's level count.
use vstd::prelude::*;

verus! {

/// RVA of the quantiser divisor constant.
pub const QUANTISER_DIVISOR_RVA: u32 = 0xa7d4;

/// The clipped index: `min(raw, level_count - 1)`, and `0` for a zero
/// level count.
pub open spec fn clipped_index(level_count: u32, raw_index: u32) -> u32 {
    if level_count == 0 {
        0
    } else if raw_index < level_count - 1 {
        raw_index
    } else {
        (level_count - 1) as u32
    }
}

/// Clamp a raw quantiser index into `0..level_count`.
pub fn clip_quantiser_index(level_count: u32, raw_index: u32) -> (q: u32)
    ensures
        q == clipped_index(level_count, raw_index),
        level_count > 0 ==> q < level_count,
{
    if level_count == 0 {
        return 0;
    }
    let top = level_count - 1;
    if raw_index < top {
        raw_index
    } else {
        top
    }
}

} // verus!
