use oxideav_cook::bitreader::FrameBitReader;
use oxideav_cook::codebook::{SpectralCodebook, SpectralHuffman};
use oxideav_cook::Error;

fn cb(i: u8) -> SpectralCodebook {
    SpectralCodebook::new(i).unwrap()
}

/// Escape pairs written into the fixture codebooks 0..=5.
const DUP_PAIRS: [usize; 6] = [15, 6, 1, 105, 47, 51];

/// A fixture codebook: fixed-length codewords (symbol `s` gets code `s`
/// at the shortest width covering every symbol); in codebooks 0..=5 the
/// last `DUP_PAIRS[i]` symbols repeat the codewords of the first ones,
/// so they are escape-style duplicates.
fn spectral_huffman(c: SpectralCodebook) -> SpectralHuffman {
    let n = c.symbol_count();
    let mut len: u32 = 1;
    while (1u32 << len) < n {
        len += 1;
    }
    let mut codes: Vec<u32> = (0..n).collect();
    let lengths: Vec<u32> = vec![len; n as usize];
    let i = c.get() as usize;
    if i < 6 {
        for j in 0..DUP_PAIRS[i] {
            let last = n as usize - 1 - j;
            codes[last] = codes[j];
        }
    }
    SpectralHuffman::from_tables(c, codes, lengths)
}

fn pack_codewords(words: &[(u32, u32)]) -> Vec<u8> {
    let mut bits: Vec<u8> = Vec::new();
    for &(code, len) in words {
        for b in (0..len).rev() {
            bits.push(((code >> b) & 1) as u8);
        }
    }
    while bits.len() % 32 != 0 {
        bits.push(0);
    }
    let mut bytes = vec![0u8; bits.len() / 8];
    for (i, &bit) in bits.iter().enumerate() {
        if bit != 0 {
            bytes[i / 8] |= 0x80 >> (i % 8);
        }
    }
    bytes
}

#[test]
fn built_shapes_match_tables() {
    for i in 0..7 {
        let h = spectral_huffman(cb(i));
        assert_eq!(h.symbol_count(), cb(i).symbol_count());
        assert!(h.min_code_length() >= 1);
        assert!(h.max_code_length() <= 16);
        assert!(h.min_code_length() <= h.max_code_length());
    }
}

#[test]
fn cached_accessor_is_stable() {
    let a = spectral_huffman(cb(3));
    let b = spectral_huffman(cb(3));
    assert_eq!(a.symbol_count(), b.symbol_count());
    for sym in 0..a.symbol_count() {
        assert_eq!(a.codeword(sym).unwrap(), b.codeword(sym).unwrap());
    }
}

#[test]
fn every_unique_symbol_round_trips() {
    for i in 0..7 {
        let h = spectral_huffman(cb(i));
        for sym in 0..h.symbol_count() {
            let (code, len) = h.codeword(sym).unwrap();
            let bytes = pack_codewords(&[(code, len)]);
            let mut r = FrameBitReader::new(&bytes);
            let got = h.decode_symbol(&mut r).unwrap();
            if h.is_escape_symbol(sym).unwrap() {
                let (gc, gl) = h.codeword(got).unwrap();
                assert_eq!((gc, gl), (code, len), "cb{i} sym{sym} escape mismatch");
            } else {
                assert_eq!(got, sym, "cb{i} sym{sym} did not round-trip");
            }
            assert_eq!(r.bit_cursor(), len, "cb{i} sym{sym} bit count");
        }
    }
}

#[test]
fn decodes_a_symbol_stream_in_order() {
    let h = spectral_huffman(cb(6));
    let syms = [0u32, 5, 31, 12, 7, 1];
    let words: Vec<(u32, u32)> = syms.iter().map(|&s| h.codeword(s).unwrap()).collect();
    let bytes = pack_codewords(&words);
    let mut r = FrameBitReader::new(&bytes);
    for &want in &syms {
        assert_eq!(h.decode_symbol(&mut r).unwrap(), want);
    }
}

#[test]
fn cb6_has_no_escape_symbols() {
    let h = spectral_huffman(cb(6));
    for sym in 0..h.symbol_count() {
        assert!(
            !h.is_escape_symbol(sym).unwrap(),
            "cb6 sym{sym} unexpectedly escape"
        );
    }
}

#[test]
fn codebooks_0_to_5_have_escape_symbols() {
    let expected_dup_pairs = [15usize, 6, 1, 105, 47, 51];
    for (i, &want) in expected_dup_pairs.iter().enumerate() {
        let h = spectral_huffman(cb(i as u8));
        let escapes = (0..h.symbol_count())
            .filter(|&s| h.is_escape_symbol(s).unwrap())
            .count();
        assert!(escapes >= want, "cb{i} escapes {escapes} < dup pairs {want}");
    }
}

#[test]
fn codeword_rejects_out_of_range_symbol() {
    let h = spectral_huffman(cb(2));
    let n = h.symbol_count();
    assert_eq!(
        h.codeword(n).unwrap_err(),
        Error::SpectralSymbolOutOfRange { got: n, count: n }
    );
}

#[test]
fn decode_reports_no_match_on_exhausted_stream() {
    let h = spectral_huffman(cb(6));
    let ones = vec![0xFFu8; 8];
    let mut r = FrameBitReader::with_bit_limit(&ones, h.max_code_length());
    match h.decode_symbol(&mut r) {
        Ok(sym) => {
            assert!(sym < h.symbol_count());
        }
        Err(Error::SpectralVlcNoMatch { codebook, bits }) => {
            assert_eq!(codebook, 6);
            assert_eq!(bits, h.max_code_length());
        }
        Err(e) => panic!("unexpected error {e:?}"),
    }
}

#[test]
fn incomplete_code_reports_no_match_after_longest_length() {
    // Codewords 0, 10, 110 leave 111 unassigned.
    let h = SpectralHuffman::from_tables(cb(6), vec![0, 2, 6], vec![1, 2, 3]);
    assert_eq!(h.min_code_length(), 1);
    assert_eq!(h.max_code_length(), 3);
    let bytes = [0xE0u8, 0, 0, 0];
    let mut r = FrameBitReader::new(&bytes);
    assert_eq!(
        h.decode_symbol(&mut r),
        Err(Error::SpectralVlcNoMatch { codebook: 6, bits: 3 })
    );
    assert_eq!(r.bit_cursor(), 3);
}

#[test]
fn variable_length_code_decodes_shortest_first() {
    // 0 -> sym0, 10 -> sym1, 110 -> sym2, 111 -> sym3.
    let h = SpectralHuffman::from_tables(cb(6), vec![0, 2, 6, 7], vec![1, 2, 3, 3]);
    // Bits: 10 0 111 110 ...
    let bytes = [0b1001_1111u8, 0, 0, 0];
    let mut r = FrameBitReader::new(&bytes);
    assert_eq!(h.decode_symbol(&mut r), Ok(1));
    assert_eq!(h.decode_symbol(&mut r), Ok(0));
    assert_eq!(h.decode_symbol(&mut r), Ok(3));
    assert_eq!(h.decode_symbol(&mut r), Ok(2));
    assert_eq!(r.bit_cursor(), 9);
}

#[test]
fn duplicate_codeword_decodes_to_first_symbol() {
    let h = SpectralHuffman::from_tables(cb(0), vec![1, 0, 1], vec![1, 1, 1]);
    assert_eq!(h.is_escape_symbol(0), Ok(true));
    assert_eq!(h.is_escape_symbol(1), Ok(false));
    assert_eq!(h.is_escape_symbol(2), Ok(true));
    assert_eq!(
        h.is_escape_symbol(3),
        Err(Error::SpectralSymbolOutOfRange { got: 3, count: 3 })
    );
    let bytes = [0x80u8, 0, 0, 0];
    let mut r = FrameBitReader::new(&bytes);
    assert_eq!(h.decode_symbol(&mut r), Ok(0));
}

#[test]
fn codebook_index_bounds() {
    assert!(SpectralCodebook::new(7).is_err());
    assert_eq!(cb(3).symbol_count(), 625);
    assert_eq!(cb(6).symbol_count(), 32);
    let h = spectral_huffman(cb(4));
    assert_eq!(h.codebook(), cb(4));
}
