//! The gain/quantiser category index and the per-band category.
//!
//! The per-band quantiser indexes its parallel per-category tables by a
//! category index in `0..=6`; category `7` is the empty band, which
//! carries no spectral data and is guarded out before any lookup.
use crate::Error;
use vstd::prelude::*;

verus! {

/// Number of gain/quantiser categories.
pub const CATEGORY_COUNT: u8 = 7;

/// Highest valid category index.
pub const MAX_CATEGORY_INDEX: u8 = 6;

/// The category of an empty band (no spectral data, no bits).
pub const EMPTY_BAND_CATEGORY: u8 = 7;

/// A gain/quantiser category index in `0..=6`.
#[derive(Debug, Clone, Copy, PartialEq, Eq, PartialOrd, Ord, Hash)]
pub struct CategoryIndex(u8);

impl CategoryIndex {
    /// The raw index.
    pub closed spec fn value(&self) -> u8 {
        self.0
    }

    /// The index is at most `6`.
    #[verifier::type_invariant]
    closed spec fn inv(self) -> bool {
        self.0 <= MAX_CATEGORY_INDEX
    }

    /// The index for `raw`, or an error above `6`.
    pub fn new(raw: u8) -> (r: core::result::Result<Self, Error>)
        ensures
            raw <= MAX_CATEGORY_INDEX ==> (r matches Ok(c) && c.value() == raw),
            raw > MAX_CATEGORY_INDEX ==> r == Err::<Self, Error>(
                Error::CategoryOutOfRange { got: raw },
            ),
    {
        if raw > MAX_CATEGORY_INDEX {
            return Err(Error::CategoryOutOfRange { got: raw });
        }
        Ok(CategoryIndex(raw))
    }

    /// The index for a `raw` value known to be in range.
    pub fn new_const(raw: u8) -> (c: Self)
        requires
            raw <= MAX_CATEGORY_INDEX,
        ensures
            c.value() == raw,
    {
        CategoryIndex(raw)
    }

    /// The raw index.
    pub fn get(self) -> (v: u8)
        ensures
            v == self.value(),
            v <= MAX_CATEGORY_INDEX,
    {
        proof {
            use_type_invariant(&self);
        }
        self.0
    }

    /// The raw index as a table position.
    pub fn as_usize(self) -> (v: usize)
        ensures
            v == self.value(),
            v <= MAX_CATEGORY_INDEX,
    {
        proof {
            use_type_invariant(&self);
        }
        self.0 as usize
    }
}

/// A band's category: the empty band, or a coded category index.
#[derive(Debug, Clone, Copy, PartialEq, Eq)]
pub enum BandCategory {
    /// Category `7`: no spectral data.
    Empty,
    /// A coded category `0..=6`.
    Coded(CategoryIndex),
}

/// The raw category value of a band category.
pub open spec fn band_category_raw(b: BandCategory) -> u8 {
    match b {
        BandCategory::Empty => EMPTY_BAND_CATEGORY,
        BandCategory::Coded(c) => c.value(),
    }
}

impl BandCategory {
    /// The band category of a raw value: `7` is the empty band, `0..=6`
    /// a coded category, anything above `7` an error.
    pub fn from_raw(raw: u8) -> (r: core::result::Result<Self, Error>)
        ensures
            raw <= EMPTY_BAND_CATEGORY ==> (r matches Ok(b) && band_category_raw(b) == raw),
            raw > EMPTY_BAND_CATEGORY ==> r == Err::<Self, Error>(
                Error::CategoryOutOfRange { got: raw },
            ),
    {
        if raw == EMPTY_BAND_CATEGORY {
            Ok(BandCategory::Empty)
        } else if raw < EMPTY_BAND_CATEGORY {
            Ok(BandCategory::Coded(CategoryIndex(raw)))
        } else {
            Err(Error::CategoryOutOfRange { got: raw })
        }
    }
}

} // verus!
