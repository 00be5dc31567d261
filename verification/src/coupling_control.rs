//! Joint-stereo coupling control read.
//!
//! A stereo frame opens its coupling control with one flag bit selecting
//! how every coupling-band index is coded: set, the indices are VLC-coded
//! over codebooks built at run time (not available here); clear, each
//! index is a fixed-width field of the per-flavor coupling bit width. The
//! rotation table of a width holds `Ncoup = 1 << coupling_bits` angles.
use crate::bitreader::FrameBitReader;
use crate::Error;
use vstd::prelude::*;

verus! {

/// Context offset of the per-flavor coupling-index bit width.
pub const CTX_COUPLING_INDEX_BITS_OFFSET: u32 = 0x1c;

/// Context offset of the per-channel subband count.
pub const CTX_SUBBAND_COUNT_OFFSET: u32 = 0x18;

/// The per-band coupling-index read mode selected by the leading flag.
#[derive(Debug, Clone, Copy, PartialEq, Eq, Hash)]
pub enum CouplingReadMode {
    /// Flag set: each index is VLC-coded.
    Vlc,
    /// Flag clear: each index is a fixed-width field of `bits` bits.
    Fixed {
        /// The per-flavor coupling-index bit width.
        bits: u32,
    },
}

/// The mode a leading flag bit selects.
pub open spec fn mode_of_flag(flag: u32, coupling_bits: u32) -> CouplingReadMode {
    if flag != 0 {
        CouplingReadMode::Vlc
    } else {
        CouplingReadMode::Fixed { bits: coupling_bits }
    }
}

/// The length of the rotation table of a coupling width: `2^bits`.
pub fn coupling_table_len(coupling_bits: u32) -> (n: u32)
    requires
        coupling_bits < 32,
    ensures
        n == vstd::arithmetic::power2::pow2(coupling_bits as nat),
{
    proof {
        vstd::bits::lemma_u32_pow2_no_overflow(coupling_bits as nat);
        vstd::bits::lemma_u32_shl_is_mul(1u32, coupling_bits);
    }
    1u32 << coupling_bits
}

/// Read the leading flag bit and classify the per-band read mode; one
/// bit is consumed.
pub fn read_coupling_mode(reader: &mut FrameBitReader, coupling_bits: u32) -> (m: CouplingReadMode)
    ensures
        *final(reader) == old(reader).after_read(1),
        m == mode_of_flag(old(reader).bits_ahead(1), coupling_bits),
{
    if reader.read_bit() != 0 {
        CouplingReadMode::Vlc
    } else {
        CouplingReadMode::Fixed { bits: coupling_bits }
    }
}

/// Read one fixed-width coupling index of `coupling_bits` bits; it lies
/// below `2^coupling_bits`.
pub fn read_fixed_coupling_index(reader: &mut FrameBitReader, coupling_bits: u32) -> (j: u32)
    ensures
        *final(reader) == old(reader).after_read(coupling_bits),
        j == old(reader).bits_ahead(coupling_bits),
        coupling_bits < 32 ==> j < vstd::arithmetic::power2::pow2(coupling_bits as nat),
{
    let j = reader.read_bits(coupling_bits);
    proof {
        let r = old(reader);
        if 1 <= coupling_bits <= 32 && r.cursor() + coupling_bits <= r.limit() {
            crate::bitreader::lemma_bits_value_bound(
                r.input(),
                r.cursor() as int,
                coupling_bits as nat,
            );
        }
        vstd::arithmetic::power2::lemma_pow2_pos(coupling_bits as nat);
    }
    j
}

/// Read one coupling index in the resolved mode: the fixed-width read,
/// or, for the VLC branch, the spectral-codebook blocker with nothing
/// consumed.
pub fn read_coupling_index(reader: &mut FrameBitReader, mode: CouplingReadMode) -> (r:
    core::result::Result<u32, Error>)
    ensures
        mode matches CouplingReadMode::Fixed { bits } ==> r == Ok::<u32, Error>(
            old(reader).bits_ahead(bits),
        ) && *final(reader) == old(reader).after_read(bits),
        mode is Vlc ==> r == Err::<u32, Error>(Error::SpectralCodebookBytesUnavailable)
            && *final(reader) == *old(reader),
{
    match mode {
        CouplingReadMode::Fixed { bits } => Ok(read_fixed_coupling_index(reader, bits)),
        CouplingReadMode::Vlc => Err(Error::SpectralCodebookBytesUnavailable),
    }
}

} // verus!
