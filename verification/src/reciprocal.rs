//! The 11-entry reciprocal table's index structure: elements `0..9` hold
//! `1/(i+1)` for denominators `1..=9`, element 9 holds `1/20`, element 10
//! is zero.
use crate::Error;
use vstd::prelude::*;

verus! {

/// RVA of the reciprocal table.
pub const RECIPROCAL_TABLE_RVA: u32 = 0xa7a8;

/// Entries in the table.
pub const RECIPROCAL_LEN: usize = 11;

/// RVA just past the table.
pub const RECIPROCAL_TABLE_END_RVA: u32 = 0xa7d4;

/// Entries of the consecutive `1/n` run.
pub const RECIPROCAL_RUN_LEN: usize = 9;

/// Smallest denominator of the run.
pub const RECIPROCAL_DENOMINATOR_MIN: u8 = 1;

/// Largest denominator of the run.
pub const RECIPROCAL_DENOMINATOR_MAX: u8 = 9;

/// Element index of the stored `1/20`.
pub const RECIPROCAL_ONE_TWENTIETH_INDEX: usize = 9;

/// The denominator of the stored `1/20`.
pub const RECIPROCAL_ONE_TWENTIETH_DENOMINATOR: u32 = 20;

/// Element index of the trailing zero.
pub const RECIPROCAL_TRAILING_ZERO_INDEX: usize = 10;

/// A denominator of the consecutive run, in `1..=9`.
#[derive(Debug, Clone, Copy, PartialEq, Eq, PartialOrd, Ord, Hash)]
pub struct ReciprocalDenominator(u8);

impl ReciprocalDenominator {
    /// The denominator.
    pub closed spec fn value(&self) -> u8 {
        self.0
    }

    /// The denominator is in `1..=9`.
    #[verifier::type_invariant]
    closed spec fn inv(self) -> bool {
        RECIPROCAL_DENOMINATOR_MIN <= self.0 <= RECIPROCAL_DENOMINATOR_MAX
    }

    /// The denominator `raw`, or an error outside `1..=9`.
    pub fn new(raw: u8) -> (r: core::result::Result<Self, Error>)
        ensures
            1 <= raw <= 9 ==> (r matches Ok(d) && d.value() == raw),
            !(1 <= raw <= 9) ==> r == Err::<Self, Error>(
                Error::ReciprocalDenominatorOutOfRange { got: raw },
            ),
    {
        if !(RECIPROCAL_DENOMINATOR_MIN <= raw && raw <= RECIPROCAL_DENOMINATOR_MAX) {
            return Err(Error::ReciprocalDenominatorOutOfRange { got: raw });
        }
        Ok(ReciprocalDenominator(raw))
    }

    /// The denominator for a `raw` value known to be in range.
    pub fn new_const(raw: u8) -> (d: Self)
        requires
            1 <= raw <= 9,
        ensures
            d.value() == raw,
    {
        ReciprocalDenominator(raw)
    }

    /// The denominator.
    pub fn get(self) -> (v: u8)
        ensures
            v == self.value(),
            1 <= v <= 9,
    {
        proof {
            use_type_invariant(&self);
        }
        self.0
    }

    /// The table element holding `1/n`: `n - 1`.
    pub fn table_index(self) -> (i: usize)
        ensures
            i == self.value() - 1,
            i < RECIPROCAL_RUN_LEN,
    {
        proof {
            use_type_invariant(&self);
        }
        (self.0 - 1) as usize
    }
}

} // verus!
