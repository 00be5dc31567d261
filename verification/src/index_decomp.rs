//! Division-free index decomposition by Q20 reciprocal multiply.
//!
//! A packed spectral index is split into its low base-`n` digit and the
//! carry, `quotient = idx / n` and `remainder = idx - quotient * n`, for
//! the seven radices `{14, 10, 7, 5, 4, 3, 2}` that the Q20 reciprocals
//! `ceil(2^20 / n)` encode. The quotient of a reciprocal is exact for
//! every `u32` index; a value that encodes none of the seven radices is
//! applied as the plain multiply-shift `(idx * recip) >> 20`.
use crate::Error;
use vstd::prelude::*;

verus! {

/// RVA of the reciprocal-constant array.
pub const INDEX_RECIP_RVA: u32 = 0x8fac;

/// Number of reciprocal constants.
pub const INDEX_RECIP_COUNT: usize = 7;

/// Highest valid reciprocal-table index.
pub const MAX_INDEX_RECIP_INDEX: u8 = 6;

/// The shift of the reciprocal multiply.
pub const INDEX_RECIP_SHIFT: u32 = 0x14;

/// The Q-format scale `2^20`.
pub const INDEX_RECIP_SCALE: u64 = 0x10_0000;

/// The seven Q20 reciprocals `ceil(2^20 / n)`.
pub const INDEX_RECIP: [u32; 7] = [0x12493, 0x1999a, 0x24925, 0x33334, 0x40000, 0x55556, 0x80000];

/// The seven radices the reciprocals encode.
pub const INDEX_RADIX: [u32; 7] = [14, 10, 7, 5, 4, 3, 2];

/// The reciprocal at table index `i`.
pub open spec fn recip_at(i: int) -> u32 {
    seq![0x12493u32, 0x1999a, 0x24925, 0x33334, 0x40000, 0x55556, 0x80000][i]
}

/// The radix at table index `i`.
pub open spec fn radix_at(i: int) -> u32 {
    seq![14u32, 10, 7, 5, 4, 3, 2][i]
}

/// The radix a reciprocal encodes, `0` for a value that is none of the
/// seven reciprocals.
pub open spec fn encoded_radix(recip: u32) -> u32 {
    if recip == 0x12493 {
        14
    } else if recip == 0x1999a {
        10
    } else if recip == 0x24925 {
        7
    } else if recip == 0x33334 {
        5
    } else if recip == 0x40000 {
        4
    } else if recip == 0x55556 {
        3
    } else if recip == 0x80000 {
        2
    } else {
        0
    }
}

/// The quotient a reciprocal gives: `idx / n` for the radix `n` it
/// encodes; the multiply-shift `(idx × recip) >> 20`, truncated to 32
/// bits, for a value encoding none.
pub open spec fn recip_quotient(idx: u32, recip: u32) -> u32 {
    if encoded_radix(recip) != 0 {
        idx / encoded_radix(recip)
    } else {
        ((idx as int * recip as int) / 0x10_0000) as u32
    }
}

/// The quotient of `idx` by the radix `recip` encodes: exact for every
/// `u32` index; for a value encoding none of the seven radices, the
/// multiply-shift `(idx × recip) >> 20`.
pub fn reciprocal_quotient(idx: u32, recip: u32) -> (q: u32)
    ensures
        q == recip_quotient(idx, recip),
{
    if recip == 0x12493 {
        idx / 14
    } else if recip == 0x1999a {
        idx / 10
    } else if recip == 0x24925 {
        idx / 7
    } else if recip == 0x33334 {
        idx / 5
    } else if recip == 0x40000 {
        idx / 4
    } else if recip == 0x55556 {
        idx / 3
    } else if recip == 0x80000 {
        idx / 2
    } else {
        assert((idx as int) * (recip as int) <= u64::MAX) by (nonlinear_arith)
            requires
                idx <= u32::MAX,
                recip <= u32::MAX,
        ;
        let p: u64 = (idx as u64) * (recip as u64);
        proof {
            vstd::bits::lemma_u64_shr_is_div(p, 20);
            vstd::arithmetic::power2::lemma2_to64();
        }
        #[verifier::truncate]
        ((p >> 20u64) as u32)
    }
}

/// The reciprocal at a table index `0..=6`.
pub fn index_recip(table_index: u8) -> (r: core::result::Result<u32, Error>)
    ensures
        table_index <= MAX_INDEX_RECIP_INDEX ==> r == Ok::<u32, Error>(
            recip_at(table_index as int),
        ),
        table_index > MAX_INDEX_RECIP_INDEX ==> r == Err::<u32, Error>(
            Error::IndexRecipOutOfRange { got: table_index },
        ),
{
    if table_index > MAX_INDEX_RECIP_INDEX {
        return Err(Error::IndexRecipOutOfRange { got: table_index });
    }
    Ok(INDEX_RECIP[table_index as usize])
}

/// The radix at a table index `0..=6`.
pub fn index_radix(table_index: u8) -> (r: core::result::Result<u32, Error>)
    ensures
        table_index <= MAX_INDEX_RECIP_INDEX ==> r == Ok::<u32, Error>(
            radix_at(table_index as int),
        ),
        table_index > MAX_INDEX_RECIP_INDEX ==> r == Err::<u32, Error>(
            Error::IndexRecipOutOfRange { got: table_index },
        ),
{
    if table_index > MAX_INDEX_RECIP_INDEX {
        return Err(Error::IndexRecipOutOfRange { got: table_index });
    }
    Ok(INDEX_RADIX[table_index as usize])
}

/// Decompose a packed index into the carry and the low base-`n` digit of
/// the radix at `table_index`: `(idx / n, idx % n)`.
pub fn decompose_index(idx: u32, table_index: u8) -> (r: core::result::Result<(u32, u32), Error>)
    ensures
        table_index <= MAX_INDEX_RECIP_INDEX ==> r == Ok::<(u32, u32), Error>(
            (idx / radix_at(table_index as int), idx % radix_at(table_index as int)),
        ),
        table_index > MAX_INDEX_RECIP_INDEX ==> r == Err::<(u32, u32), Error>(
            Error::IndexRecipOutOfRange { got: table_index },
        ),
{
    let recip = match index_recip(table_index) {
        Ok(v) => v,
        Err(e) => {
            return Err(e);
        },
    };
    let radix = INDEX_RADIX[table_index as usize];
    let quotient = reciprocal_quotient(idx, recip);
    proof {
        lemma_decompose_exact(idx, table_index);
    }
    let remainder = idx - quotient * radix;
    Ok((quotient, remainder))
}

/// Every reciprocal gives the exact quotient by its radix, for every `u32`
/// index: `q × n + r == idx` with `r < n`.
pub proof fn lemma_decompose_exact(idx: u32, table_index: u8)
    requires
        table_index <= MAX_INDEX_RECIP_INDEX,
    ensures
        encoded_radix(recip_at(table_index as int)) == radix_at(table_index as int),
        recip_quotient(idx, recip_at(table_index as int)) == idx / radix_at(table_index as int),
        recip_quotient(idx, recip_at(table_index as int)) * radix_at(table_index as int)
            + idx % radix_at(table_index as int) == idx,
        idx % radix_at(table_index as int) < radix_at(table_index as int),
{
    let n = radix_at(table_index as int) as int;
    assert(n >= 2);
    assert(idx as int == (idx as int / n) * n + idx as int % n && 0 <= idx as int % n < n)
        by (nonlinear_arith)
        requires
            n > 0,
    ;
}

} // verus!
