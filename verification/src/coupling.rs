//! Joint-stereo / coupling-mode classification of a flavor record's two
//! mode selectors, and the coupling widths that have a stored pan table.
//!
//! - `+0x00` coupling/region mode: `0` for the plain flavors, a small
//!   non-zero value for the coupled ones.
//! - `+0x04` stereo mode: `0` for mono, `2..=5` for the stereo / surround
//!   families (`1` is reserved and rejected).
use crate::flavor::FlavorRecord;
use crate::Error;
use vstd::prelude::*;

verus! {

/// Typed view of a flavor record's stereo-mode selector.
#[derive(Debug, Clone, Copy, PartialEq, Eq, Hash)]
pub enum StereoMode {
    /// Selector `0`.
    Mono,
    /// A stereo / surround family carrying the raw `2..=5` selector.
    Stereo(u8),
}

/// Lowest raw stereo-mode value of a stereo / surround family.
pub const STEREO_MODE_MIN: u32 = 2;

/// Highest raw stereo-mode value of a stereo / surround family.
pub const STEREO_MODE_MAX: u32 = 5;

/// The classification of a raw stereo-mode selector.
pub open spec fn stereo_mode_of(raw: u32) -> core::result::Result<StereoMode, Error> {
    if raw == 0 {
        Ok(StereoMode::Mono)
    } else if STEREO_MODE_MIN <= raw <= STEREO_MODE_MAX {
        Ok(StereoMode::Stereo(raw as u8))
    } else {
        Err(Error::StereoModeUnsupported { got: raw })
    }
}

/// The raw selector a stereo mode carries.
pub open spec fn stereo_mode_raw(m: StereoMode) -> u32 {
    match m {
        StereoMode::Mono => 0,
        StereoMode::Stereo(v) => v as u32,
    }
}

impl StereoMode {
    /// Classify a raw stereo-mode selector: `0` is mono, `2..=5` a stereo
    /// family carrying the value, anything else unsupported.
    pub fn from_raw(raw: u32) -> (r: core::result::Result<Self, Error>)
        ensures
            r == stereo_mode_of(raw),
    {
        if raw == 0 {
            Ok(StereoMode::Mono)
        } else if STEREO_MODE_MIN <= raw && raw <= STEREO_MODE_MAX {
            Ok(StereoMode::Stereo(raw as u8))
        } else {
            Err(Error::StereoModeUnsupported { got: raw })
        }
    }

    /// The raw selector value (`0` for mono, the carried value otherwise).
    pub fn raw(self) -> (v: u32)
        ensures
            v == stereo_mode_raw(self),
    {
        match self {
            StereoMode::Mono => 0,
            StereoMode::Stereo(v) => v as u32,
        }
    }

    /// Whether this is a stereo / surround family.
    pub fn is_stereo(self) -> (b: bool)
        ensures
            b == (self is Stereo),
    {
        match self {
            StereoMode::Mono => false,
            StereoMode::Stereo(_) => true,
        }
    }
}

/// Classifying a raw stereo selector and reading it back gives the raw
/// value again.
pub proof fn lemma_stereo_mode_raw_roundtrip(raw: u32)
    requires
        stereo_mode_of(raw) is Ok,
    ensures
        stereo_mode_raw(stereo_mode_of(raw)->Ok_0) == raw,
{
}

/// Typed view of a flavor record's coupling/region selector.
#[derive(Debug, Clone, Copy, PartialEq, Eq, Hash)]
pub enum CouplingMode {
    /// Selector `0`: no joint coupling.
    Uncoupled,
    /// A coupled flavor carrying the raw non-zero region value.
    Coupled(u32),
}

/// The classification of a raw coupling selector.
pub open spec fn coupling_mode_of(raw: u32) -> CouplingMode {
    if raw == 0 {
        CouplingMode::Uncoupled
    } else {
        CouplingMode::Coupled(raw)
    }
}

/// The raw selector a coupling mode carries.
pub open spec fn coupling_mode_raw(m: CouplingMode) -> u32 {
    match m {
        CouplingMode::Uncoupled => 0,
        CouplingMode::Coupled(v) => v,
    }
}

impl CouplingMode {
    /// Classify a raw coupling selector: `0` is uncoupled, any other value
    /// coupled carrying it.
    pub fn from_raw(raw: u32) -> (m: Self)
        ensures
            m == coupling_mode_of(raw),
    {
        if raw == 0 {
            CouplingMode::Uncoupled
        } else {
            CouplingMode::Coupled(raw)
        }
    }

    /// The raw selector value.
    pub fn raw(self) -> (v: u32)
        ensures
            v == coupling_mode_raw(self),
    {
        match self {
            CouplingMode::Uncoupled => 0,
            CouplingMode::Coupled(v) => v,
        }
    }

    /// Whether this flavor applies joint coupling.
    pub fn is_coupled(self) -> (b: bool)
        ensures
            b == (self is Coupled),
    {
        match self {
            CouplingMode::Uncoupled => false,
            CouplingMode::Coupled(_) => true,
        }
    }
}

/// Classifying a raw coupling selector and reading it back gives the raw
/// value again.
pub proof fn lemma_coupling_mode_raw_roundtrip(raw: u32)
    ensures
        coupling_mode_raw(coupling_mode_of(raw)) == raw,
        (coupling_mode_of(raw) is Coupled) == (raw != 0),
{
}

impl FlavorRecord {
    /// The record's coupling selector, classified.
    pub fn coupling_mode_class(&self) -> (m: CouplingMode)
        ensures
            m == coupling_mode_of(self.coupling_mode),
    {
        CouplingMode::from_raw(self.coupling_mode)
    }

    /// The record's stereo selector, classified.
    pub fn stereo_mode_class(&self) -> (r: core::result::Result<StereoMode, Error>)
        ensures
            r == stereo_mode_of(self.stereo_mode),
    {
        StereoMode::from_raw(self.stereo_mode)
    }

    /// Whether the record's coupling selector is non-zero.
    pub fn is_coupled(&self) -> (b: bool)
        ensures
            b == (self.coupling_mode != 0),
    {
        self.coupling_mode_class().is_coupled()
    }

    /// Whether the record's stereo selector is in `2..=5`.
    pub fn is_stereo(&self) -> (b: bool)
        ensures
            b == (STEREO_MODE_MIN <= self.stereo_mode <= STEREO_MODE_MAX),
    {
        self.stereo_mode >= STEREO_MODE_MIN && self.stereo_mode <= STEREO_MODE_MAX
    }
}

/// RVA of the five concatenated pan-coefficient tables.
pub const COUPLING_PAN_TABLE_RVA: u32 = 0x8d0c;

/// Lengths of the five pan tables, one per coupling width `2..=6`.
pub const COUPLING_PAN_ROW_LENS: [u32; 5] = [3, 7, 15, 31, 63];

/// Total number of pan coefficients over the five tables.
pub const COUPLING_PAN_TOTAL_LEN: u32 = 119;

/// RVA of the dispatch pointer array indexing the five tables, right after
/// them: `0x8d0c + 4 × 119`.
pub const COUPLING_PAN_DISPATCH_RVA: u32 = 0x8ee8;

/// The coupling-index bit widths with a stored pan table (`2..=6`).
#[derive(Debug, Clone, Copy, PartialEq, Eq, Hash)]
pub enum CouplingPanWidth {
    /// Width 2 — 3-entry table.
    W2,
    /// Width 3 — 7-entry table.
    W3,
    /// Width 4 — 15-entry table.
    W4,
    /// Width 5 — 31-entry table.
    W5,
    /// Width 6 — 63-entry table.
    W6,
}

/// The bit width of a pan width.
pub open spec fn pan_width_bits(w: CouplingPanWidth) -> u32 {
    match w {
        CouplingPanWidth::W2 => 2,
        CouplingPanWidth::W3 => 3,
        CouplingPanWidth::W4 => 4,
        CouplingPanWidth::W5 => 5,
        CouplingPanWidth::W6 => 6,
    }
}

/// The RVA of a width's table head: the table base plus four bytes per
/// entry of the narrower tables before it.
pub open spec fn pan_width_rva(w: CouplingPanWidth) -> u32 {
    match w {
        CouplingPanWidth::W2 => 0x8d0c,
        CouplingPanWidth::W3 => 0x8d18,
        CouplingPanWidth::W4 => 0x8d34,
        CouplingPanWidth::W5 => 0x8d70,
        CouplingPanWidth::W6 => 0x8dec,
    }
}

impl CouplingPanWidth {
    /// Every stored width in table order.
    pub fn all() -> (v: [CouplingPanWidth; 5])
        ensures
            v@ == seq![
                CouplingPanWidth::W2,
                CouplingPanWidth::W3,
                CouplingPanWidth::W4,
                CouplingPanWidth::W5,
                CouplingPanWidth::W6,
            ],
    {
        [
            CouplingPanWidth::W2,
            CouplingPanWidth::W3,
            CouplingPanWidth::W4,
            CouplingPanWidth::W5,
            CouplingPanWidth::W6,
        ]
    }

    /// The width for a coupling bit count in `2..=6`, an error otherwise.
    pub fn from_bits(coupling_bits: u32) -> (r: core::result::Result<Self, Error>)
        ensures
            2 <= coupling_bits <= 6 ==> (r matches Ok(w) && pan_width_bits(w) == coupling_bits),
            !(2 <= coupling_bits <= 6) ==> r == Err::<Self, Error>(
                Error::CouplingPanWidthUnsupported { got: coupling_bits },
            ),
    {
        match coupling_bits {
            2 => Ok(CouplingPanWidth::W2),
            3 => Ok(CouplingPanWidth::W3),
            4 => Ok(CouplingPanWidth::W4),
            5 => Ok(CouplingPanWidth::W5),
            6 => Ok(CouplingPanWidth::W6),
            other => Err(Error::CouplingPanWidthUnsupported { got: other }),
        }
    }

    /// The coupling bit width `w`.
    pub fn bits(self) -> (b: u32)
        ensures
            b == pan_width_bits(self),
            2 <= b <= 6,
    {
        match self {
            CouplingPanWidth::W2 => 2,
            CouplingPanWidth::W3 => 3,
            CouplingPanWidth::W4 => 4,
            CouplingPanWidth::W5 => 5,
            CouplingPanWidth::W6 => 6,
        }
    }

    /// The row of this width's table among the five (`w - 2`).
    pub fn row_index(self) -> (i: usize)
        ensures
            i == pan_width_bits(self) - 2,
    {
        (self.bits() - 2) as usize
    }

    /// The table length `(1 << w) - 1`.
    pub fn table_len(self) -> (n: u32)
        ensures
            n == vstd::arithmetic::power2::pow2(pan_width_bits(self) as nat) - 1,
    {
        let b = self.bits();
        proof {
            vstd::arithmetic::power2::lemma2_to64();
        }
        match self {
            CouplingPanWidth::W2 => 3,
            CouplingPanWidth::W3 => 7,
            CouplingPanWidth::W4 => 15,
            CouplingPanWidth::W5 => 31,
            CouplingPanWidth::W6 => 63,
        }
    }

    /// The RVA of this width's table head: the base plus four bytes for
    /// every entry of the rows before it.
    pub fn rva(self) -> (a: u32)
        ensures
            a == pan_width_rva(self),
    {
        let row = self.row_index();
        let mut off: u32 = 0;
        let mut i: usize = 0;
        let lens = COUPLING_PAN_ROW_LENS;
        while i < row
            invariant
                row <= 4,
                i <= row,
                lens@ == seq![3u32, 7, 15, 31, 63],
                off == (if i == 0 {
                    0u32
                } else if i == 1 {
                    12u32
                } else if i == 2 {
                    40u32
                } else if i == 3 {
                    100u32
                } else {
                    224u32
                }),
            decreases row - i,
        {
            off = off + lens[i] * 4;
            i += 1;
        }
        COUPLING_PAN_TABLE_RVA + off
    }
}

/// Each stored width's table head lies four bytes per entry after the
/// previous one, and the last table ends at the dispatch array.
pub proof fn lemma_pan_tables_tile()
    ensures
        pan_width_rva(CouplingPanWidth::W2) == COUPLING_PAN_TABLE_RVA,
        pan_width_rva(CouplingPanWidth::W3) == pan_width_rva(CouplingPanWidth::W2) + 4 * 3,
        pan_width_rva(CouplingPanWidth::W4) == pan_width_rva(CouplingPanWidth::W3) + 4 * 7,
        pan_width_rva(CouplingPanWidth::W5) == pan_width_rva(CouplingPanWidth::W4) + 4 * 15,
        pan_width_rva(CouplingPanWidth::W6) == pan_width_rva(CouplingPanWidth::W5) + 4 * 31,
        COUPLING_PAN_DISPATCH_RVA == pan_width_rva(CouplingPanWidth::W6) + 4 * 63,
        COUPLING_PAN_DISPATCH_RVA == COUPLING_PAN_TABLE_RVA + 4 * COUPLING_PAN_TOTAL_LEN,
{
}

} // verus!
