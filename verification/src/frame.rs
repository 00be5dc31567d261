//! The per-frame layout parameters and the fixed-width frame head.
//!
//! A frame opens with, in wire order: a 1-bit sub-packet flag; for stereo
//! bodies a 1-bit coupling-control mode flag followed by one coupling
//! index per coupling band (fixed width, or VLC-coded); and a 6-bit
//! envelope seed. The VLC coupling branch's tree is not available, so it
//! is reported as such rather than guessed.
use crate::bitreader::{bits_value, FrameBitReader};
use crate::category_assignment::{
    assign_categories, base_offset, refine_outcome, values_in_range,
};
use crate::coupling::{pan_width_bits, CouplingPanWidth};
use crate::coupling_control::{
    mode_of_flag, read_coupling_mode, read_fixed_coupling_index, CouplingReadMode,
};
use crate::Error;
use vstd::prelude::*;

verus! {

/// The coupling band → subband mapping: coupling band `k` covers
/// `subbands_per_index` consecutive subbands from
/// `start_band + k × subbands_per_index`.
#[derive(Debug, Clone, Copy, PartialEq, Eq)]
pub struct CouplingMap {
    /// First coupled subband.
    pub start_band: u32,
    /// Subbands covered per coupling index.
    pub subbands_per_index: u32,
}

/// The per-stream frame-layout parameters the frame walk consumes.
#[derive(Debug, Clone, PartialEq, Eq)]
pub struct FrameLayout {
    /// Channel count; the coupling control exists only for two channels.
    pub channels: u16,
    /// The coupling-index bit width.
    pub coupling_bits: u32,
    /// Coupling bands per frame.
    pub coupling_band_count: u32,
    /// The allocator band count.
    pub band_count: u32,
    /// The refinement bound of the category allocator.
    pub refinement_bound: u32,
    /// The coupling band mapping.
    pub coupling_map: CouplingMap,
}

/// The traced layout of the validated stereo flavor family.
pub open spec fn validated_stereo_layout() -> FrameLayout {
    FrameLayout {
        channels: 2,
        coupling_bits: 4,
        coupling_band_count: 16,
        band_count: 34,
        refinement_bound: 128,
        coupling_map: CouplingMap { start_band: 2, subbands_per_index: 2 },
    }
}

impl FrameLayout {
    /// The traced layout of the validated flavor (stereo 44.1 kHz,
    /// 1024-line frames): width 4, 16 coupling bands, 34 bands, bound
    /// 128, coupling from band 2 at two subbands per index.
    pub fn validated_stereo() -> (l: Self)
        ensures
            l == validated_stereo_layout(),
    {
        FrameLayout {
            channels: 2,
            coupling_bits: 4,
            coupling_band_count: 16,
            band_count: 34,
            refinement_bound: 128,
            coupling_map: CouplingMap { start_band: 2, subbands_per_index: 2 },
        }
    }

    /// The layout for a flavor geometry: only the traced family (stereo,
    /// 32 subbands, 1024 samples per frame) has one.
    pub fn for_flavor_geometry(channels: u16, subband_count: u32, samples_per_frame: u32) -> (r:
        core::result::Result<Self, Error>)
        ensures
            channels == 2 && subband_count == 32 && samples_per_frame == 1024 ==> r == Ok::<
                FrameLayout,
                Error,
            >(validated_stereo_layout()),
            !(channels == 2 && subband_count == 32 && samples_per_frame == 1024) ==> r == Err::<
                FrameLayout,
                Error,
            >(Error::FrameLayoutUnknown { channels, subband_count, samples_per_frame }),
    {
        if channels == 2 && subband_count == 32 && samples_per_frame == 1024 {
            return Ok(Self::validated_stereo());
        }
        Err(Error::FrameLayoutUnknown { channels, subband_count, samples_per_frame })
    }

    /// The pan-table selector for this layout's coupling width.
    pub fn pan_width(&self) -> (r: core::result::Result<CouplingPanWidth, Error>)
        ensures
            2 <= self.coupling_bits <= 6 ==> (r matches Ok(w) && pan_width_bits(w)
                == self.coupling_bits),
            !(2 <= self.coupling_bits <= 6) ==> r == Err::<CouplingPanWidth, Error>(
                Error::CouplingPanWidthUnsupported { got: self.coupling_bits },
            ),
    {
        CouplingPanWidth::from_bits(self.coupling_bits)
    }
}

/// The fixed-width frame head.
#[derive(Debug, Clone, PartialEq, Eq)]
pub struct FrameHead {
    /// The 1-bit sub-packet flag.
    pub subpacket_flag: u32,
    /// The stereo coupling control, absent for mono bodies.
    pub coupling: Option<FrameHeadCoupling>,
    /// The 6-bit envelope seed.
    pub envelope_seed: u32,
    /// The bit cursor after the head.
    pub bits_consumed: u32,
}

/// The stereo coupling control of a frame head.
#[derive(Debug, Clone, PartialEq, Eq)]
pub struct FrameHeadCoupling {
    /// The resolved read mode.
    pub mode: CouplingReadMode,
    /// One coupling index per coupling band.
    pub indices: Vec<u32>,
}

/// Reading `count` fixed-width coupling indices of `bits` bits from `r`,
/// each checked below `ncoup`: the indices and the reader after them, or
/// the first out-of-range index and the reader just past it.
pub open spec fn fixed_index_walk(r: FrameBitReader, bits: u32, ncoup: u32, count: nat) -> (
    core::result::Result<Seq<u32>, Error>,
    FrameBitReader,
)
    decreases count,
{
    if count == 0 {
        (Ok(Seq::empty()), r)
    } else {
        let j = r.bits_ahead(bits);
        let r1 = r.after_read(bits);
        if j >= ncoup {
            (Err(Error::CouplingIndexOutOfRange { got: j, ncoup }), r1)
        } else {
            let (rest, r2) = fixed_index_walk(r1, bits, ncoup, (count - 1) as nat);
            match rest {
                Ok(s) => (Ok(seq![j] + s), r2),
                Err(e) => (Err(e), r2),
            }
        }
    }
}

/// A walk outcome with `prefix` put in front of its indices.
pub open spec fn prepend_indices(
    prefix: Seq<u32>,
    w: (core::result::Result<Seq<u32>, Error>, FrameBitReader),
) -> (core::result::Result<Seq<u32>, Error>, FrameBitReader) {
    match w.0 {
        Ok(s) => (Ok(prefix + s), w.1),
        Err(e) => (Err(e), w.1),
    }
}

/// The table-size bound on a fixed coupling index: `2^bits - 1`.
pub open spec fn ncoup_of(coupling_bits: u32) -> u32 {
    (vstd::arithmetic::power2::pow2(coupling_bits as nat) - 1) as u32
}

/// The head a reader yields for a layout, with the reader after it.
pub open spec fn frame_head_spec(r: FrameBitReader, layout: FrameLayout) -> (
    core::result::Result<(u32, Option<(CouplingReadMode, Seq<u32>)>, u32), Error>,
    FrameBitReader,
) {
    let flag = r.bits_ahead(1);
    let r1 = r.after_read(1);
    if layout.channels == 2 {
        let mode = mode_of_flag(r1.bits_ahead(1), layout.coupling_bits);
        let r2 = r1.after_read(1);
        match mode {
            CouplingReadMode::Vlc => (Err(Error::CouplingIndexTreeUnavailable), r2),
            CouplingReadMode::Fixed { bits } => {
                let (w, r3) = fixed_index_walk(
                    r2,
                    bits,
                    ncoup_of(layout.coupling_bits),
                    layout.coupling_band_count as nat,
                );
                match w {
                    Err(e) => (Err(e), r3),
                    Ok(s) => (Ok((flag, Some((mode, s)), r3.bits_ahead(6))), r3.after_read(6)),
                }
            },
        }
    } else {
        (Ok((flag, None, r1.bits_ahead(6))), r1.after_read(6))
    }
}

/// Whether a head value is the one a specification outcome describes.
pub open spec fn head_matches(
    h: FrameHead,
    v: (u32, Option<(CouplingReadMode, Seq<u32>)>, u32),
    end: FrameBitReader,
) -> bool {
    &&& h.subpacket_flag == v.0
    &&& h.envelope_seed == v.2
    &&& h.bits_consumed == end.cursor()
    &&& match v.1 {
        None => h.coupling is None,
        Some(c) => h.coupling matches Some(hc) && hc.mode == c.0 && hc.indices@ == c.1,
    }
}

/// Read the fixed-width frame head: the sub-packet flag, for stereo the
/// coupling control, then the envelope seed.
///
/// The VLC coupling branch reports the unavailable coupling-index tree;
/// a fixed index at or above `Ncoup = 2^coupling_bits - 1` is rejected.
pub fn read_frame_head(reader: &mut FrameBitReader<'_>, layout: &FrameLayout) -> (r:
    core::result::Result<FrameHead, Error>)
    requires
        layout.channels == 2 ==> layout.coupling_bits < 32,
    ensures
        *final(reader) == frame_head_spec(*old(reader), *layout).1,
        frame_head_spec(*old(reader), *layout).0 is Err ==> r == Err::<FrameHead, Error>(
            frame_head_spec(*old(reader), *layout).0->Err_0,
        ),
        frame_head_spec(*old(reader), *layout).0 is Ok ==> (r matches Ok(h) && head_matches(
            h,
            frame_head_spec(*old(reader), *layout).0->Ok_0,
            frame_head_spec(*old(reader), *layout).1,
        )),
{
    let subpacket_flag = reader.read_bits(1);
    let coupling = if layout.channels == 2 {
        let mode = read_coupling_mode(reader, layout.coupling_bits);
        let indices = match mode {
            CouplingReadMode::Fixed { bits } => {
                proof {
                    vstd::bits::lemma_u32_pow2_no_overflow(layout.coupling_bits as nat);
                    vstd::arithmetic::power2::lemma_pow2_pos(layout.coupling_bits as nat);
                    vstd::bits::lemma_u32_shl_is_mul(1u32, layout.coupling_bits);
                }
                let ncoup = (1u32 << layout.coupling_bits) - 1;
                let ghost r0 = *reader;
                let count = layout.coupling_band_count;
                let mut indices: Vec<u32> = Vec::new();
                let mut k: u32 = 0;
                while k < count
                    invariant
                        k <= count,
                        count == layout.coupling_band_count,
                        layout.channels == 2,
                        bits == layout.coupling_bits,
                        ncoup == ncoup_of(layout.coupling_bits),
                        r0 == old(reader).after_read(1).after_read(1),
                        mode == mode_of_flag(
                            old(reader).after_read(1).bits_ahead(1),
                            layout.coupling_bits,
                        ),
                        mode == (CouplingReadMode::Fixed { bits }),
                        fixed_index_walk(r0, bits, ncoup, count as nat) == prepend_indices(
                            indices@,
                            fixed_index_walk(*reader, bits, ncoup, (count - k) as nat),
                        ),
                    decreases count - k,
                {
                    let ghost before = *reader;
                    let j = read_fixed_coupling_index(reader, bits);
                    if j >= ncoup {
                        proof {
                            assert(fixed_index_walk(before, bits, ncoup, (count - k) as nat) == (
                            Err::<Seq<u32>, Error>(Error::CouplingIndexOutOfRange { got: j, ncoup }),
                            *reader,
                            ));
                        }
                        return Err(Error::CouplingIndexOutOfRange { got: j, ncoup });
                    }
                    proof {
                        let rest = fixed_index_walk(*reader, bits, ncoup, (count - k - 1) as nat);
                        assert(fixed_index_walk(before, bits, ncoup, (count - k) as nat)
                            == prepend_indices(seq![j], rest));
                        match rest.0 {
                            Ok(s) => {
                                assert(indices@ + (seq![j] + s) =~= indices@.push(j) + s);
                            },
                            Err(_) => {},
                        }
                    }
                    indices.push(j);
                    k += 1;
                }
                proof {
                    assert(indices@ + Seq::<u32>::empty() =~= indices@);
                }
                indices
            },
            CouplingReadMode::Vlc => {
                return Err(Error::CouplingIndexTreeUnavailable);
            },
        };
        Some(FrameHeadCoupling { mode, indices })
    } else {
        None
    };
    let envelope_seed = reader.read_bits(6);
    Ok(FrameHead { subpacket_flag, coupling, envelope_seed, bits_consumed: reader.bit_cursor() })
}

/// The walk's stand-in for the envelope VLC region: the per-band envelope
/// values and the bit cursor at which the 7-bit frame scalar starts.
#[derive(Debug, Clone, Copy)]
pub struct EnvelopeInjection<'a> {
    /// The per-band envelope values, one per allocator band.
    pub values: &'a [i32],
    /// The bit cursor of the frame scalar (the envelope region's end).
    pub cursor_at_frame_scalar: u32,
}

/// The per-band coupling read of a stereo frame, expanded to subbands.
#[derive(Debug, Clone, PartialEq, Eq)]
pub struct FrameAllocationCoupling {
    /// One coupling index per subband from the coupling start band to the
    /// band count.
    pub indices: Vec<u32>,
    /// The pan table the coupling width selects.
    pub pan_width: CouplingPanWidth,
}

/// What a frame walk fixes before the spectral read: the head, the
/// envelope, the frame scalar, the allocator budget and categories, and
/// for stereo the subband coupling indices.
#[derive(Debug, Clone, PartialEq, Eq)]
pub struct FrameAllocation {
    /// The fixed-width head.
    pub head: FrameHead,
    /// The per-band envelope values.
    pub envelope: Vec<i32>,
    /// The 7-bit frame scalar.
    pub frame_scalar: u32,
    /// The allocator budget: the bits left after the frame scalar.
    pub budget: i32,
    /// The per-band categories (`0..=7`).
    pub categories: Vec<u8>,
    /// The stereo coupling expansion, absent for mono layouts.
    pub coupling: Option<FrameAllocationCoupling>,
    /// The bit cursor at which the spectral read starts.
    pub bits_consumed: u32,
}

/// The envelope stand-in as plain values.
pub open spec fn injection_view(envelope: Option<&EnvelopeInjection>) -> Option<(Seq<i32>, u32)> {
    match envelope {
        Some(inj) => Some((inj.values@, inj.cursor_at_frame_scalar)),
        None => None,
    }
}

/// The head read from the start of `frame`, with the reader after it.
pub open spec fn frame_head_of(frame: &[u8], layout: FrameLayout) -> (
    core::result::Result<(u32, Option<(CouplingReadMode, Seq<u32>)>, u32), Error>,
    FrameBitReader,
) {
    frame_head_spec(FrameBitReader::spec_new(frame), layout)
}

/// The coupling indices of the coupling bands expanded to subbands:
/// subband `start + i` takes the index of coupling band `i / per`.
pub open spec fn expand_coupling(indices: Seq<u32>, map: CouplingMap, band_count: u32) -> Seq<u32> {
    Seq::new(
        (band_count - map.start_band) as nat,
        |i: int| indices[i / (map.subbands_per_index as int)],
    )
}

/// The frame walk up to the spectral read, as values: the frame scalar,
/// the budget, the categories, the expanded coupling indices (stereo) and
/// the cursor after the frame scalar; or the first error, in order: the
/// head's, no envelope, an envelope of the wrong length, a cursor before
/// the head or with its scalar past the limit, a stereo head without
/// coupling, a coupling map that does not tile the bands, an unsupported
/// coupling width.
pub open spec fn frame_allocation_spec(
    frame: &[u8],
    layout: FrameLayout,
    envelope: Option<(Seq<i32>, u32)>,
) -> core::result::Result<(u32, int, Seq<u8>, Option<Seq<u32>>, u32), Error> {
    let (hs, end) = frame_head_of(frame, layout);
    match hs {
        Err(e) => Err(e),
        Ok(hv) => match envelope {
            None => Err(Error::EnvelopeValueTreeUnavailable),
            Some((values, cursor)) => {
                if values.len() != layout.band_count {
                    Err(
                        Error::SpectrumBandCountMismatch {
                            subband_count: layout.band_count,
                            got: values.len() as usize,
                        },
                    )
                } else if cursor < end.cursor() || cursor + 7 > end.limit() {
                    Err(
                        Error::FrameCursorOutOfRange {
                            got: cursor,
                            head: end.cursor(),
                            limit: end.limit(),
                        },
                    )
                } else {
                    let scalar = bits_value(frame@, cursor as int, 7) as u32;
                    let budget = end.limit() - (cursor + 7);
                    let cats = refine_outcome(
                        values,
                        budget,
                        base_offset(values, budget),
                        layout.refinement_bound as int,
                    ).0;
                    let map = layout.coupling_map;
                    if layout.channels == 2 {
                        match hv.1 {
                            None => Err(Error::StereoCouplingMissing),
                            Some(c) => {
                                if map.subbands_per_index == 0 || map.start_band
                                    + layout.coupling_band_count * map.subbands_per_index
                                    != layout.band_count {
                                    Err(
                                        Error::CouplingMapMismatch {
                                            start_band: map.start_band,
                                            subbands_per_index: map.subbands_per_index,
                                            coupling_bands: layout.coupling_band_count,
                                            band_count: layout.band_count,
                                        },
                                    )
                                } else if !(2 <= layout.coupling_bits <= 6) {
                                    Err(
                                        Error::CouplingPanWidthUnsupported {
                                            got: layout.coupling_bits,
                                        },
                                    )
                                } else {
                                    Ok(
                                        (
                                            scalar,
                                            budget,
                                            cats,
                                            Some(expand_coupling(c.1, map, layout.band_count)),
                                            (cursor + 7) as u32,
                                        ),
                                    )
                                }
                            },
                        }
                    } else {
                        Ok((scalar, budget, cats, None, (cursor + 7) as u32))
                    }
                }
            },
        },
    }
}

/// The reader after a fixed-index walk reads the same input under the
/// same limit, and a completed walk yields one index per step.
proof fn lemma_fixed_index_walk(r: FrameBitReader, bits: u32, ncoup: u32, count: nat)
    ensures
        fixed_index_walk(r, bits, ncoup, count).1.input() == r.input(),
        fixed_index_walk(r, bits, ncoup, count).1.limit() == r.limit(),
        fixed_index_walk(r, bits, ncoup, count).0 matches Ok(s) ==> s.len() == count,
    decreases count,
{
    r.lemma_after_read(bits);
    if count > 0 {
        lemma_fixed_index_walk(r.after_read(bits), bits, ncoup, (count - 1) as nat);
    }
}

/// The reader after the head reads the same input under the same limit,
/// and a stereo head carries one index per coupling band.
proof fn lemma_frame_head_reader(r: FrameBitReader, layout: FrameLayout)
    ensures
        frame_head_spec(r, layout).1.input() == r.input(),
        frame_head_spec(r, layout).1.limit() == r.limit(),
        frame_head_spec(r, layout).0 matches Ok(v) ==> (layout.channels == 2 <==> v.1 is Some),
        frame_head_spec(r, layout).0 matches Ok(v) ==> (v.1 matches Some(c) ==> c.1.len()
            == layout.coupling_band_count),
{
    r.lemma_after_read(1);
    let r1 = r.after_read(1);
    r1.lemma_after_read(1);
    r1.lemma_after_read(6);
    let r2 = r1.after_read(1);
    match mode_of_flag(r1.bits_ahead(1), layout.coupling_bits) {
        CouplingReadMode::Fixed { bits } => {
            let ncoup = ncoup_of(layout.coupling_bits);
            lemma_fixed_index_walk(r2, bits, ncoup, layout.coupling_band_count as nat);
            let r3 = fixed_index_walk(r2, bits, ncoup, layout.coupling_band_count as nat).1;
            r3.lemma_after_read(6);
        },
        CouplingReadMode::Vlc => {},
    }
}

/// Walk one frame up to its spectral read: the head, the envelope (whose
/// VLC tree is not available, so its values and end cursor are supplied),
/// the 7-bit frame scalar, the allocator over the bits left after it, and
/// for stereo the coupling indices expanded from coupling bands to
/// subbands with the pan table of the coupling width.
pub fn decode_frame_allocation(
    frame: &[u8],
    layout: &FrameLayout,
    envelope: Option<&EnvelopeInjection>,
) -> (r: core::result::Result<FrameAllocation, Error>)
    requires
        frame@.len() * 8 <= i32::MAX,
        layout.channels == 2 ==> layout.coupling_bits < 32,
        envelope matches Some(inj) ==> values_in_range(inj.values@),
    ensures
        match frame_allocation_spec(frame, *layout, injection_view(envelope)) {
            Err(e) => r == Err::<FrameAllocation, Error>(e),
            Ok(v) => r matches Ok(a) && {
                &&& head_matches(a.head, frame_head_of(frame, *layout).0->Ok_0, frame_head_of(frame, *layout).1)
                &&& a.envelope@ == envelope->Some_0.values@
                &&& a.frame_scalar == v.0
                &&& a.budget == v.1
                &&& a.categories@ == v.2
                &&& a.bits_consumed == v.4
                &&& match v.3 {
                    None => a.coupling is None,
                    Some(ix) => a.coupling matches Some(c) && c.indices@ == ix && pan_width_bits(
                        c.pan_width,
                    ) == layout.coupling_bits,
                }
            },
        },
{
    let mut reader = FrameBitReader::new(frame);
    proof {
        lemma_frame_head_reader(reader, *layout);
    }
    let head = match read_frame_head(&mut reader, layout) {
        Ok(h) => h,
        Err(e) => {
            return Err(e);
        },
    };
    let inj = match envelope {
        Some(inj) => inj,
        None => {
            return Err(Error::EnvelopeValueTreeUnavailable);
        },
    };
    if inj.values.len() as u64 != layout.band_count as u64 {
        return Err(
            Error::SpectrumBandCountMismatch { subband_count: layout.band_count, got: inj.values.len() },
        );
    }
    let cursor = inj.cursor_at_frame_scalar;
    if cursor < head.bits_consumed || (cursor as u64) + 7 > reader.bit_limit() as u64 {
        return Err(
            Error::FrameCursorOutOfRange {
                got: cursor,
                head: head.bits_consumed,
                limit: reader.bit_limit(),
            },
        );
    }
    reader.skip_bits(cursor - reader.bit_cursor());
    let frame_scalar = reader.read_bits(7);
    let budget = reader.bit_limit() as i32 - reader.bit_cursor() as i32;
    let assignment = assign_categories(inj.values, budget, layout.refinement_bound);
    let categories = assignment.categories;
    let coupling = if layout.channels == 2 {
        let coupling_head = match &head.coupling {
            Some(c) => c,
            None => {
                return Err(Error::StereoCouplingMissing);
            },
        };
        let map = layout.coupling_map;
        let ncb = layout.coupling_band_count as u64;
        let per = map.subbands_per_index as u64;
        assert(ncb * per <= 0xFFFF_FFFE_0000_0001) by (nonlinear_arith)
            requires
                ncb <= 0xFFFF_FFFF,
                per <= 0xFFFF_FFFF,
        ;
        let mapped: u64 = map.start_band as u64 + ncb * per;
        if map.subbands_per_index == 0 || mapped != layout.band_count as u64 {
            return Err(
                Error::CouplingMapMismatch {
                    start_band: map.start_band,
                    subbands_per_index: map.subbands_per_index,
                    coupling_bands: layout.coupling_band_count,
                    band_count: layout.band_count,
                },
            );
        }
        let ghost idx = coupling_head.indices@;
        let mut expanded: Vec<u32> = Vec::new();
        let mut b: u32 = map.start_band;
        while b < layout.band_count
            invariant
                map == layout.coupling_map,
                map.subbands_per_index > 0,
                map.start_band + layout.coupling_band_count * map.subbands_per_index
                    == layout.band_count,
                idx == coupling_head.indices@,
                idx.len() == layout.coupling_band_count,
                map.start_band <= b <= layout.band_count,
                expanded@ =~= expand_coupling(idx, map, b),
            decreases layout.band_count - b,
        {
            let k: u32 = (b - map.start_band) / map.subbands_per_index;
            proof {
                let x = b - map.start_band;
                let p = map.subbands_per_index as int;
                let n = layout.coupling_band_count as int;
                assert(x < n * p);
                assert(x / p < n) by (nonlinear_arith)
                    requires
                        0 <= x < n * p,
                        p > 0,
                ;
            }
            expanded.push(coupling_head.indices[k as usize]);
            b += 1;
        }
        let pan_width = match layout.pan_width() {
            Ok(w) => w,
            Err(e) => {
                return Err(e);
            },
        };
        Some(FrameAllocationCoupling { indices: expanded, pan_width })
    } else {
        None
    };
    Ok(
        FrameAllocation {
            head,
            envelope: vstd::slice::slice_to_vec(inj.values),
            frame_scalar,
            budget,
            categories,
            coupling,
            bits_consumed: reader.bit_cursor(),
        },
    )
}

} // verus!
