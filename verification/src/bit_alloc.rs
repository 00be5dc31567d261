//! The bit-allocation category LUT and the per-category bit cost.
//!
//! The 51-entry LUT maps an axis position `0..=50` monotonically onto the
//! twenty categories `0..=19`: one position per category at the low end,
//! nine positions for category `19` at the top. The cost LUT gives the
//! half-bit cost of one band coded in category `0..=6`.
use crate::category::CategoryIndex;
use crate::Error;
use vstd::prelude::*;

verus! {

/// Length of the LUT's input axis.
pub const BIT_ALLOC_AXIS_LEN: usize = 51;

/// Number of distinct output categories.
pub const BIT_ALLOC_CATEGORY_COUNT: u8 = 20;

/// Highest output category.
pub const MAX_BIT_ALLOC_CATEGORY: u8 = 19;

/// Highest axis position.
pub const MAX_BIT_ALLOC_AXIS_POSITION: u8 = 50;

/// The LUT value at axis position `p` (`0..=50`).
pub open spec fn category_index_lut(p: int) -> u8 {
    if p <= 11 {
        p as u8
    } else if p == 12 {
        11
    } else if p <= 14 {
        12
    } else if p <= 16 {
        13
    } else if p <= 19 {
        14
    } else if p <= 23 {
        15
    } else if p <= 28 {
        16
    } else if p <= 34 {
        17
    } else if p <= 41 {
        18
    } else {
        19
    }
}

/// The half-bit cost of one band in category `c` (`0..=6`).
pub open spec fn category_cost_lut(c: int) -> u32 {
    if c == 0 {
        52
    } else if c == 1 {
        47
    } else if c == 2 {
        43
    } else if c == 3 {
        37
    } else if c == 4 {
        29
    } else if c == 5 {
        22
    } else {
        16
    }
}

/// The LUT never decreases along the axis.
pub proof fn lemma_category_index_lut_monotone(p: int, q: int)
    requires
        0 <= p <= q <= 50,
    ensures
        category_index_lut(p) <= category_index_lut(q),
{
}

/// The cost strictly decreases as the category coarsens.
pub proof fn lemma_category_cost_decreasing(c: int, d: int)
    requires
        0 <= c < d <= 6,
    ensures
        category_cost_lut(c) > category_cost_lut(d),
{
}

/// An axis position of the LUT, in `0..=50`.
#[derive(Debug, Clone, Copy, PartialEq, Eq, PartialOrd, Ord, Hash)]
pub struct BitAllocAxisPosition(u8);

impl BitAllocAxisPosition {
    /// The raw position.
    pub closed spec fn value(&self) -> u8 {
        self.0
    }

    /// The position is at most `50`.
    #[verifier::type_invariant]
    closed spec fn inv(self) -> bool {
        self.0 <= MAX_BIT_ALLOC_AXIS_POSITION
    }

    /// The position for `raw`, or an error above `50`.
    pub fn new(raw: u8) -> (r: core::result::Result<Self, Error>)
        ensures
            raw <= MAX_BIT_ALLOC_AXIS_POSITION ==> (r matches Ok(p) && p.value() == raw),
            raw > MAX_BIT_ALLOC_AXIS_POSITION ==> r == Err::<Self, Error>(
                Error::BitAllocAxisOutOfRange { got: raw },
            ),
    {
        if raw > MAX_BIT_ALLOC_AXIS_POSITION {
            return Err(Error::BitAllocAxisOutOfRange { got: raw });
        }
        Ok(BitAllocAxisPosition(raw))
    }

    /// The position for a `raw` value known to be in range.
    pub fn new_const(raw: u8) -> (p: Self)
        requires
            raw <= MAX_BIT_ALLOC_AXIS_POSITION,
        ensures
            p.value() == raw,
    {
        BitAllocAxisPosition(raw)
    }

    /// The raw position.
    pub fn get(self) -> (v: u8)
        ensures
            v == self.value(),
            v <= MAX_BIT_ALLOC_AXIS_POSITION,
    {
        proof {
            use_type_invariant(&self);
        }
        self.0
    }

    /// The raw position as a table index.
    pub fn as_usize(self) -> (v: usize)
        ensures
            v == self.value(),
            v <= MAX_BIT_ALLOC_AXIS_POSITION,
    {
        proof {
            use_type_invariant(&self);
        }
        self.0 as usize
    }
}

/// A LUT output category, in `0..=19`.
#[derive(Debug, Clone, Copy, PartialEq, Eq, PartialOrd, Ord, Hash)]
pub struct BitAllocCategory(u8);

impl BitAllocCategory {
    /// The raw category.
    pub closed spec fn value(&self) -> u8 {
        self.0
    }

    /// The category is at most `19`.
    #[verifier::type_invariant]
    closed spec fn inv(self) -> bool {
        self.0 <= MAX_BIT_ALLOC_CATEGORY
    }

    /// The category for a `raw` value known to be in range.
    pub fn new_const(raw: u8) -> (c: Self)
        requires
            raw <= MAX_BIT_ALLOC_CATEGORY,
        ensures
            c.value() == raw,
    {
        BitAllocCategory(raw)
    }

    /// The raw category.
    pub fn get(self) -> (v: u8)
        ensures
            v == self.value(),
            v <= MAX_BIT_ALLOC_CATEGORY,
    {
        proof {
            use_type_invariant(&self);
        }
        self.0
    }

    /// The raw category as an index.
    pub fn as_usize(self) -> (v: usize)
        ensures
            v == self.value(),
            v <= MAX_BIT_ALLOC_CATEGORY,
    {
        proof {
            use_type_invariant(&self);
        }
        self.0 as usize
    }
}

/// The LUT category at an axis position.
pub fn bit_alloc_category_for_position(pos: BitAllocAxisPosition) -> (c: BitAllocCategory)
    ensures
        c.value() == category_index_lut(pos.value() as int),
{
    let p = pos.get();
    let v: u8 = if p <= 11 {
        p
    } else if p == 12 {
        11
    } else if p <= 14 {
        12
    } else if p <= 16 {
        13
    } else if p <= 19 {
        14
    } else if p <= 23 {
        15
    } else if p <= 28 {
        16
    } else if p <= 34 {
        17
    } else if p <= 41 {
        18
    } else {
        19
    };
    BitAllocCategory(v)
}

/// The half-bit cost of one band coded in a category.
pub fn category_bit_cost(index: CategoryIndex) -> (n: u32)
    ensures
        n == category_cost_lut(index.value() as int),
{
    match index.get() {
        0 => 52,
        1 => 47,
        2 => 43,
        3 => 37,
        4 => 29,
        5 => 22,
        _ => 16,
    }
}

} // verus!
