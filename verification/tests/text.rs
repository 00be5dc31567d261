use oxideav_cook::text::{parse_u32, split_on, trim};

#[test]
fn split_keeps_empty_fields_and_the_last_piece() {
    let parts = split_on(b"a,,bc,", b',');
    assert_eq!(parts, vec![&b"a"[..], &b""[..], &b"bc"[..], &b""[..]]);
    assert_eq!(split_on(b"", b','), vec![&b""[..]]);
    assert_eq!(split_on(b"abc", b','), vec![&b"abc"[..]]);
}

#[test]
fn trim_drops_ascii_whitespace_at_both_ends() {
    assert_eq!(trim(b" \t 12 3\r\n"), b"12 3");
    assert_eq!(trim(b"   "), b"");
    assert_eq!(trim(b"x"), b"x");
    assert_eq!(trim(b"\x0b\x0cy\x0b"), b"y");
}

#[test]
fn parse_u32_accepts_plain_and_plus_signed_decimals() {
    assert_eq!(parse_u32(b"0"), Some(0));
    assert_eq!(parse_u32(b"44100"), Some(44100));
    assert_eq!(parse_u32(b"+7"), Some(7));
    assert_eq!(parse_u32(b"007"), Some(7));
    assert_eq!(parse_u32(b"4294967295"), Some(u32::MAX));
}

#[test]
fn parse_u32_rejects_what_str_parse_rejects() {
    assert_eq!(parse_u32(b""), None);
    assert_eq!(parse_u32(b"+"), None);
    assert_eq!(parse_u32(b"-1"), None);
    assert_eq!(parse_u32(b"1 2"), None);
    assert_eq!(parse_u32(b" 1"), None);
    assert_eq!(parse_u32(b"4294967296"), None);
    assert_eq!(parse_u32(b"12a"), None);
    for s in ["", "+", "-1", "1 2", " 1", "4294967296", "12a", "0", "+7", "4294967295"] {
        assert_eq!(parse_u32(s.as_bytes()), s.parse::<u32>().ok(), "{s:?}");
    }
}

#[test]
fn trim_drops_unicode_whitespace_like_str_trim() {
    let samples = [
        "\u{a0}12\u{3000}",
        "\u{85}\u{2000}\u{200a} x y \u{2028}\u{2029}",
        "\u{202f}\u{205f}\u{1680}",
        "\u{180e}7",
        "é\u{a0}",
        " \u{a0}\t",
        "plain",
        "",
    ];
    for s in samples {
        assert_eq!(trim(s.as_bytes()), s.trim().as_bytes(), "{s:?}");
    }
}

#[test]
fn csv_field_padded_with_non_breaking_spaces_parses() {
    let field = "\u{a0}44100\u{a0}";
    assert_eq!(parse_u32(trim(field.as_bytes())), Some(44100));
}
