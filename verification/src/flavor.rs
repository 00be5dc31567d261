//! Per-flavor geometry table.
//!
//! A flavor is a preset bundle of (sample rate, channels, samples per
//! frame, transform geometry, packet size) selected by a small index. The
//! geometry is held in a [`FlavorTable`]: one entry per data line of the
//! geometry CSV (header skipped, blank lines dropped), each either a parsed
//! seven-field record or nothing for a line that does not parse.
use crate::cookie::{cookie_matches, CookCookie};
use crate::text::{parse_u32, parse_u32_spec, split_on, split_spec, trim, trim_spec};
use vstd::prelude::*;

verus! {

/// Number of well-formed geometry records in the stock table (indices 0–30).
pub const FLAVOR_COUNT: u8 = 31;

/// The legacy flavor count the ordinal-7 export returns.
pub const RA_GET_NUMBER_OF_FLAVORS_ADVERTISED: u8 = 0x0f;

/// The property-descriptor count the ordinal-9 export returns.
pub const RA_GET_NUMBER_OF_FLAVORS2_ADVERTISED: u8 = 0x22;

/// Index of the closing single-subband sentinel record.
pub const SENTINEL_FLAVOR_INDEX: u8 = 30;

/// One row of the flavor geometry table.
#[derive(Debug, Clone, Copy, PartialEq, Eq)]
pub struct FlavorRecord {
    /// Joint-coding / coupling-region selector.
    pub coupling_mode: u32,
    /// Secondary (stereo) mode selector.
    pub stereo_mode: u32,
    /// Transform frame length.
    pub samples_per_frame: u32,
    /// Channel count.
    pub channels: u32,
    /// Number of coded subbands.
    pub subband_count: u32,
    /// Per-frame coded size in bytes.
    pub frame_bytes: u32,
    /// Sample rate in Hz.
    pub sample_rate_hz: u32,
}

impl FlavorRecord {
    /// Whether this is the single-subband sentinel record
    /// (`subband_count == 1`).
    pub fn is_sentinel(&self) -> (b: bool)
        ensures
            b == (self.subband_count == 1),
    {
        self.subband_count == 1
    }
}

/// The flavor geometry table: one entry per data line.
#[derive(Debug, Clone)]
pub struct FlavorTable {
    lines: Vec<Option<FlavorRecord>>,
}

impl View for FlavorTable {
    type V = Seq<Option<FlavorRecord>>;

    closed spec fn view(&self) -> Seq<Option<FlavorRecord>> {
        self.lines@
    }
}

/// The `(index, record)` pairs of every parsed line, in line order; the
/// index is the line number truncated to `u8`.
pub open spec fn indexed_records(lines: Seq<Option<FlavorRecord>>) -> Seq<(u8, FlavorRecord)>
    decreases lines.len(),
{
    if lines.len() == 0 {
        Seq::empty()
    } else {
        let prev = indexed_records(lines.drop_last());
        match lines.last() {
            Some(r) => prev.push(((lines.len() - 1) as u8, r)),
            None => prev,
        }
    }
}

/// The pairs of `pairs` whose record is not the sentinel.
pub open spec fn playable(pairs: Seq<(u8, FlavorRecord)>) -> Seq<(u8, FlavorRecord)>
    decreases pairs.len(),
{
    if pairs.len() == 0 {
        Seq::empty()
    } else {
        let prev = playable(pairs.drop_last());
        if pairs.last().1.subband_count == 1 {
            prev
        } else {
            prev.push(pairs.last())
        }
    }
}

/// The indices of the pairs of `pairs` whose record the cookie matches.
pub open spec fn matching_indices(pairs: Seq<(u8, FlavorRecord)>, c: CookCookie) -> Seq<u8>
    decreases pairs.len(),
{
    if pairs.len() == 0 {
        Seq::empty()
    } else {
        let prev = matching_indices(pairs.drop_last(), c);
        if cookie_matches(c, pairs.last().1) {
            prev.push(pairs.last().0)
        } else {
            prev
        }
    }
}

impl FlavorTable {
    /// A table from its per-line entries.
    pub fn from_lines(lines: Vec<Option<FlavorRecord>>) -> (t: Self)
        ensures
            t@ == lines@,
    {
        FlavorTable { lines }
    }

    /// Number of data lines.
    pub fn len(&self) -> (n: usize)
        ensures
            n == self@.len(),
    {
        self.lines.len()
    }
}

/// The geometry record for flavor `index`: the entry of that data line, or
/// nothing past the end of the table.
pub fn flavor_record(table: &FlavorTable, index: u8) -> (r: Option<FlavorRecord>)
    ensures
        r == if (index as int) < table@.len() {
            table@[index as int]
        } else {
            None
        },
{
    if (index as usize) < table.lines.len() {
        table.lines[index as usize]
    } else {
        None
    }
}

/// Every parsed `(index, record)` pair in line order.
pub fn iter_flavor_records(table: &FlavorTable) -> (v: Vec<(u8, FlavorRecord)>)
    ensures
        v@ == indexed_records(table@),
{
    let mut v: Vec<(u8, FlavorRecord)> = Vec::new();
    let mut i: usize = 0;
    while i < table.lines.len()
        invariant
            i <= table@.len(),
            v@ == indexed_records(table@.subrange(0, i as int)),
        decreases table@.len() - i,
    {
        let ghost prefix = table@.subrange(0, i as int);
        assert(table@.subrange(0, i + 1).drop_last() == prefix);
        match table.lines[i] {
            Some(r) => {
                v.push((i as u8, r));
            },
            None => {},
        }
        i += 1;
    }
    assert(table@.subrange(0, table@.len() as int) == table@);
    v
}

/// Every parsed pair whose record is not the sentinel, in line order.
pub fn iter_playable_flavor_records(table: &FlavorTable) -> (v: Vec<(u8, FlavorRecord)>)
    ensures
        v@ == playable(indexed_records(table@)),
{
    let all = iter_flavor_records(table);
    let mut v: Vec<(u8, FlavorRecord)> = Vec::new();
    let mut i: usize = 0;
    while i < all.len()
        invariant
            i <= all@.len(),
            v@ == playable(all@.subrange(0, i as int)),
        decreases all@.len() - i,
    {
        assert(all@.subrange(0, i + 1).drop_last() == all@.subrange(0, i as int));
        let p = all[i];
        if !p.1.is_sentinel() {
            v.push(p);
        }
        i += 1;
    }
    assert(all@.subrange(0, all@.len() as int) == all@);
    v
}

/// The flavor indices whose record `cookie` matches (channels, subband
/// count, stereo mode and recovered samples per frame), in line order.
pub fn flavor_indices_matching_cookie(table: &FlavorTable, cookie: &CookCookie) -> (v: Vec<u8>)
    ensures
        v@ == matching_indices(indexed_records(table@), *cookie),
{
    let all = iter_flavor_records(table);
    let mut v: Vec<u8> = Vec::new();
    let mut i: usize = 0;
    while i < all.len()
        invariant
            i <= all@.len(),
            v@ == matching_indices(all@.subrange(0, i as int), *cookie),
        decreases all@.len() - i,
    {
        assert(all@.subrange(0, i + 1).drop_last() == all@.subrange(0, i as int));
        let p = all[i];
        if cookie.matches_flavor(&p.1) {
            v.push(p.0);
        }
        i += 1;
    }
    assert(all@.subrange(0, all@.len() as int) == all@);
    v
}

/// The record a comma-separated line spells: exactly seven fields, each
/// (trimmed) a decimal `u32`, in the order coupling mode, stereo mode,
/// samples per frame, channels, subband count, frame bytes, sample rate.
pub open spec fn parse_record_spec(line: Seq<u8>) -> Option<FlavorRecord> {
    let f = split_spec(line, 44);
    if f.len() == 7 && (forall|i: int| 0 <= i < 7 ==> #[trigger] parse_u32_spec(trim_spec(f[i])) is Some) {
        Some(
            FlavorRecord {
                coupling_mode: parse_u32_spec(trim_spec(f[0]))->Some_0,
                stereo_mode: parse_u32_spec(trim_spec(f[1]))->Some_0,
                samples_per_frame: parse_u32_spec(trim_spec(f[2]))->Some_0,
                channels: parse_u32_spec(trim_spec(f[3]))->Some_0,
                subband_count: parse_u32_spec(trim_spec(f[4]))->Some_0,
                frame_bytes: parse_u32_spec(trim_spec(f[5]))->Some_0,
                sample_rate_hz: parse_u32_spec(trim_spec(f[6]))->Some_0,
            },
        )
    } else {
        None
    }
}

/// The lines of a text: the pieces between line feeds, without the empty
/// piece a final line feed leaves.
pub open spec fn text_lines(text: Seq<u8>) -> Seq<Seq<u8>> {
    let p = split_spec(text, 10);
    if p.last().len() == 0 {
        p.drop_last()
    } else {
        p
    }
}

/// The trimmed non-blank lines among `lines`, in order.
pub open spec fn nonblank_trimmed(lines: Seq<Seq<u8>>) -> Seq<Seq<u8>>
    decreases lines.len(),
{
    if lines.len() == 0 {
        Seq::empty()
    } else {
        let prev = nonblank_trimmed(lines.drop_last());
        let t = trim_spec(lines.last());
        if t.len() == 0 {
            prev
        } else {
            prev.push(t)
        }
    }
}

/// The data lines of the geometry table text: the header line skipped,
/// each line trimmed, blank lines dropped.
pub open spec fn data_lines_spec(text: Seq<u8>) -> Seq<Seq<u8>> {
    let l = text_lines(text);
    if l.len() == 0 {
        Seq::empty()
    } else {
        nonblank_trimmed(l.skip(1))
    }
}

impl FlavorRecord {
    /// Parse one comma-separated record line: exactly seven trimmed
    /// decimal `u32` fields.
    fn parse_line(line: &[u8]) -> (r: Option<Self>)
        ensures
            r == parse_record_spec(line@),
    {
        let f = split_on(line, 44);
        if f.len() != 7 {
            return None;
        }
        let mut vals: Vec<u32> = Vec::new();
        let mut i: usize = 0;
        while i < 7
            invariant
                f@.len() == 7,
                forall|k: int| 0 <= k < 7 ==> #[trigger] f@[k]@ == split_spec(line@, 44)[k],
                i <= 7,
                vals@.len() == i,
                forall|k: int|
                    0 <= k < i ==> parse_u32_spec(trim_spec(#[trigger] split_spec(line@, 44)[k]))
                        == Some(vals@[k]),
            decreases 7 - i,
        {
            match parse_u32(trim(f[i])) {
                Some(v) => {
                    vals.push(v);
                },
                None => {
                    return None;
                },
            }
            i += 1;
        }
        Some(
            FlavorRecord {
                coupling_mode: vals[0],
                stereo_mode: vals[1],
                samples_per_frame: vals[2],
                channels: vals[3],
                subband_count: vals[4],
                frame_bytes: vals[5],
                sample_rate_hz: vals[6],
            },
        )
    }
}

/// The data lines of the geometry table text.
fn data_lines(text: &[u8]) -> (v: Vec<&[u8]>)
    ensures
        v@.len() == data_lines_spec(text@).len(),
        forall|i: int| 0 <= i < v@.len() ==> #[trigger] v@[i]@ == data_lines_spec(text@)[i],
{
    let pieces = split_on(text, 10);
    let mut n = pieces.len();
    if n > 0 && pieces[n - 1].len() == 0 {
        n = n - 1;
    }
    let ghost l = text_lines(text@);
    assert(l.len() == n);
    let mut v: Vec<&[u8]> = Vec::new();
    if n == 0 {
        return v;
    }
    let ghost rest = l.skip(1);
    let mut i: usize = 1;
    while i < n
        invariant
            1 <= i <= n,
            n == l.len(),
            n <= pieces@.len(),
            rest == l.skip(1),
            forall|k: int| 0 <= k < n ==> #[trigger] pieces@[k]@ == l[k],
            v@.len() == nonblank_trimmed(rest.take(i - 1)).len(),
            forall|k: int|
                0 <= k < v@.len() ==> #[trigger] v@[k]@ == nonblank_trimmed(rest.take(i - 1))[k],
        decreases n - i,
    {
        let t = trim(pieces[i]);
        proof {
            assert(rest.take(i as int).drop_last() =~= rest.take(i - 1));
            assert(rest.take(i as int).last() == l[i as int]);
        }
        if t.len() != 0 {
            v.push(t);
        }
        i += 1;
    }
    proof {
        assert(rest.take(n - 1) =~= rest);
    }
    v
}

impl FlavorTable {
    /// The table of a geometry CSV text: one entry per data line (header
    /// skipped, lines trimmed, blank lines dropped), the parsed record or
    /// nothing for a line that does not parse.
    pub fn from_csv(text: &[u8]) -> (t: Self)
        ensures
            t@ == data_lines_spec(text@).map_values(|l: Seq<u8>| parse_record_spec(l)),
    {
        let lines = data_lines(text);
        let mut out: Vec<Option<FlavorRecord>> = Vec::new();
        let mut i: usize = 0;
        while i < lines.len()
            invariant
                i <= lines@.len(),
                lines@.len() == data_lines_spec(text@).len(),
                forall|k: int| 0 <= k < lines@.len() ==> #[trigger] lines@[k]@ == data_lines_spec(text@)[k],
                out@.len() == i,
                forall|k: int|
                    0 <= k < i ==> #[trigger] out@[k] == parse_record_spec(data_lines_spec(text@)[k]),
            decreases lines@.len() - i,
        {
            out.push(FlavorRecord::parse_line(lines[i]));
            i += 1;
        }
        assert(out@ =~= data_lines_spec(text@).map_values(|l: Seq<u8>| parse_record_spec(l)));
        FlavorTable { lines: out }
    }
}

} // verus!
