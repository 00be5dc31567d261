//! Byte-text helpers for the geometry table: splitting on a separator,
//! trimming whitespace (the UTF-8 encodings of the Unicode `White_Space`
//! characters), and decimal `u32` parsing.
use vstd::prelude::*;

verus! {

/// The length of the longest prefix of `s` free of `sep`.
pub open spec fn sep_free_len(s: Seq<u8>, sep: u8) -> nat
    decreases s.len(),
{
    if s.len() == 0 || s[0] == sep {
        0
    } else {
        1 + sep_free_len(s.skip(1), sep)
    }
}

/// The pieces of `s` between occurrences of `sep` (an input without
/// `sep` is one piece; a trailing `sep` gives a trailing empty piece).
pub open spec fn split_spec(s: Seq<u8>, sep: u8) -> Seq<Seq<u8>>
    decreases s.len(),
{
    let j = sep_free_len(s, sep);
    if j >= s.len() {
        seq![s]
    } else {
        seq![s.take(j as int)] + split_spec(s.skip(j as int + 1), sep)
    }
}

/// ASCII whitespace: tab, line feed, vertical tab, form feed, carriage
/// return, space.
pub open spec fn is_ascii_ws(b: u8) -> bool {
    b == 9 || b == 10 || b == 11 || b == 12 || b == 13 || b == 32
}

/// The two-byte UTF-8 whitespace characters: U+0085 and U+00A0.
pub open spec fn is_ws2(a: u8, b: u8) -> bool {
    a == 0xC2 && (b == 0x85 || b == 0xA0)
}

/// The three-byte UTF-8 whitespace characters: U+1680, U+2000 to U+200A,
/// U+2028, U+2029, U+202F, U+205F and U+3000.
pub open spec fn is_ws3(a: u8, b: u8, c: u8) -> bool {
    ||| a == 0xE1 && b == 0x9A && c == 0x80
    ||| a == 0xE2 && b == 0x80 && (0x80 <= c <= 0x8A || c == 0xA8 || c == 0xA9 || c == 0xAF)
    ||| a == 0xE2 && b == 0x81 && c == 0x9F
    ||| a == 0xE3 && b == 0x80 && c == 0x80
}

/// The byte length of the whitespace character `s` starts with, `0` when
/// it starts with none.
pub open spec fn ws_prefix_len(s: Seq<u8>) -> nat {
    if s.len() >= 1 && is_ascii_ws(s[0]) {
        1
    } else if s.len() >= 2 && is_ws2(s[0], s[1]) {
        2
    } else if s.len() >= 3 && is_ws3(s[0], s[1], s[2]) {
        3
    } else {
        0
    }
}

/// The byte length of the whitespace character `s` ends with, `0` when it
/// ends with none.
pub open spec fn ws_suffix_len(s: Seq<u8>) -> nat {
    let n = s.len() as int;
    if n >= 1 && is_ascii_ws(s[n - 1]) {
        1
    } else if n >= 2 && is_ws2(s[n - 2], s[n - 1]) {
        2
    } else if n >= 3 && is_ws3(s[n - 3], s[n - 2], s[n - 1]) {
        3
    } else {
        0
    }
}

/// Byte count of the leading whitespace characters.
pub open spec fn leading_ws(s: Seq<u8>) -> nat
    decreases s.len(),
{
    let k = ws_prefix_len(s);
    if k == 0 {
        0
    } else {
        k + leading_ws(s.skip(k as int))
    }
}

/// Byte count of the trailing whitespace characters.
pub open spec fn trailing_ws(s: Seq<u8>) -> nat
    decreases s.len(),
{
    let k = ws_suffix_len(s);
    if k == 0 {
        0
    } else {
        k + trailing_ws(s.take(s.len() - k))
    }
}

/// `s` without leading and trailing whitespace.
pub open spec fn trim_spec(s: Seq<u8>) -> Seq<u8> {
    let t = s.skip(leading_ws(s) as int);
    t.take(t.len() - trailing_ws(t))
}

/// An ASCII decimal digit.
pub open spec fn is_digit(b: u8) -> bool {
    48 <= b <= 57
}

/// The decimal value of a digit string.
pub open spec fn digits_value(s: Seq<u8>) -> nat
    decreases s.len(),
{
    if s.len() == 0 {
        0
    } else {
        digits_value(s.drop_last()) * 10 + (s.last() - 48) as nat
    }
}

/// Every byte is a digit.
pub open spec fn all_digits(s: Seq<u8>) -> bool {
    forall|i: int| 0 <= i < s.len() ==> #[trigger] is_digit(s[i])
}

/// A field without its optional leading `+`.
pub open spec fn field_body(s: Seq<u8>) -> Seq<u8> {
    if s.len() > 0 && s[0] == 43 {
        s.skip(1)
    } else {
        s
    }
}

/// The decimal `u32` a field spells: an optional `+`, then one or more
/// digits, with a value that fits in 32 bits.
pub open spec fn parse_u32_spec(s: Seq<u8>) -> Option<u32> {
    let body = field_body(s);
    if body.len() > 0 && all_digits(body) && digits_value(body) <= u32::MAX {
        Some(digits_value(body) as u32)
    } else {
        None
    }
}

proof fn lemma_sep_free_len(s: Seq<u8>, sep: u8, j: int)
    requires
        0 <= j <= s.len(),
        forall|k: int| 0 <= k < j ==> s[k] != sep,
        j == s.len() || s[j] == sep,
    ensures
        sep_free_len(s, sep) == j,
    decreases j,
{
    if j > 0 {
        assert forall|k: int| 0 <= k < j - 1 implies s.skip(1)[k] != sep by {
            assert(s.skip(1)[k] == s[k + 1]);
        }
        lemma_sep_free_len(s.skip(1), sep, j - 1);
    }
}

/// Split `s` on `sep`.
pub fn split_on(s: &[u8], sep: u8) -> (v: Vec<&[u8]>)
    ensures
        v@.len() == split_spec(s@, sep).len(),
        forall|i: int| 0 <= i < v@.len() ==> #[trigger] v@[i]@ == split_spec(s@, sep)[i],
{
    let n = s.len();
    let mut v: Vec<&[u8]> = Vec::new();
    let ghost views: Seq<Seq<u8>> = Seq::empty();
    let mut start: usize = 0;
    let mut i: usize = 0;
    assert(s@.skip(0) =~= s@);
    assert(views + split_spec(s@.skip(0), sep) =~= split_spec(s@, sep));
    while i < n
        invariant
            n == s@.len(),
            start <= i <= n,
            v@.len() == views.len(),
            forall|k: int| 0 <= k < v@.len() ==> #[trigger] v@[k]@ == views[k],
            forall|k: int| start <= k < i ==> s@[k] != sep,
            views + split_spec(s@.skip(start as int), sep) == split_spec(s@, sep),
        decreases n - i,
    {
        if s[i] == sep {
            let piece = &s[start..i];
            proof {
                let t = s@.skip(start as int);
                lemma_sep_free_len(t, sep, (i - start) as int);
                assert(t.take((i - start) as int) =~= piece@);
                assert(t.skip((i - start) as int + 1) =~= s@.skip(i as int + 1));
                assert(split_spec(t, sep) == seq![piece@] + split_spec(s@.skip(i as int + 1), sep));
                assert(views + split_spec(t, sep) =~= views.push(piece@) + split_spec(
                    s@.skip(i as int + 1),
                    sep,
                ));
                views = views.push(piece@);
            }
            v.push(piece);
            start = i + 1;
        }
        i += 1;
    }
    let last = &s[start..n];
    proof {
        let t = s@.skip(start as int);
        lemma_sep_free_len(t, sep, (n - start) as int);
        assert(t =~= last@);
        assert(split_spec(t, sep) == seq![last@]);
        views = views.push(last@);
    }
    v.push(last);
    v
}

fn is_ws_byte(b: u8) -> (r: bool)
    ensures
        r == is_ascii_ws(b),
{
    b == 9 || b == 10 || b == 11 || b == 12 || b == 13 || b == 32
}

fn is_ws3_bytes(a: u8, b: u8, c: u8) -> (r: bool)
    ensures
        r == is_ws3(a, b, c),
{
    (a == 0xE1 && b == 0x9A && c == 0x80) || (a == 0xE2 && b == 0x80 && ((0x80 <= c && c <= 0x8A)
        || c == 0xA8 || c == 0xA9 || c == 0xAF)) || (a == 0xE2 && b == 0x81 && c == 0x9F) || (a
        == 0xE3 && b == 0x80 && c == 0x80)
}

/// The byte length of the whitespace character starting at `a` in
/// `s[..b]`.
fn ws_prefix_len_at(s: &[u8], a: usize, b: usize) -> (k: usize)
    requires
        a <= b <= s@.len(),
    ensures
        k == ws_prefix_len(s@.subrange(a as int, b as int)),
{
    let n = b - a;
    if n >= 1 && is_ws_byte(s[a]) {
        1
    } else if n >= 2 && s[a] == 0xC2 && (s[a + 1] == 0x85 || s[a + 1] == 0xA0) {
        2
    } else if n >= 3 && is_ws3_bytes(s[a], s[a + 1], s[a + 2]) {
        3
    } else {
        0
    }
}

/// The byte length of the whitespace character ending at `b` in
/// `s[a..]`.
fn ws_suffix_len_at(s: &[u8], a: usize, b: usize) -> (k: usize)
    requires
        a <= b <= s@.len(),
    ensures
        k == ws_suffix_len(s@.subrange(a as int, b as int)),
{
    let n = b - a;
    if n >= 1 && is_ws_byte(s[b - 1]) {
        1
    } else if n >= 2 && s[b - 2] == 0xC2 && (s[b - 1] == 0x85 || s[b - 1] == 0xA0) {
        2
    } else if n >= 3 && is_ws3_bytes(s[b - 3], s[b - 2], s[b - 1]) {
        3
    } else {
        0
    }
}

/// `s` without leading and trailing whitespace characters.
pub fn trim(s: &[u8]) -> (t: &[u8])
    ensures
        t@ == trim_spec(s@),
{
    let n = s.len();
    let mut a: usize = 0;
    assert(s@.subrange(0, n as int) =~= s@);
    loop
        invariant
            n == s@.len(),
            a <= n,
            leading_ws(s@) == a + leading_ws(s@.subrange(a as int, n as int)),
        ensures
            a <= n,
            leading_ws(s@) == a + leading_ws(s@.subrange(a as int, n as int)),
            ws_prefix_len(s@.subrange(a as int, n as int)) == 0,
        decreases n - a,
    {
        let k = ws_prefix_len_at(s, a, n);
        if k == 0 {
            break;
        }
        proof {
            assert(s@.subrange(a as int, n as int).skip(k as int) =~= s@.subrange(
                a + k,
                n as int,
            ));
        }
        a = a + k;
    }
    let ghost u = s@.skip(a as int);
    assert(u =~= s@.subrange(a as int, n as int));
    let mut b: usize = n;
    assert(u.take(u.len() as int) =~= u);
    loop
        invariant
            n == s@.len(),
            a <= b <= n,
            u == s@.subrange(a as int, n as int),
            trailing_ws(u) == (n - b) + trailing_ws(s@.subrange(a as int, b as int)),
        ensures
            a <= b <= n,
            trailing_ws(u) == (n - b) + trailing_ws(s@.subrange(a as int, b as int)),
            ws_suffix_len(s@.subrange(a as int, b as int)) == 0,
        decreases b - a,
    {
        let k = ws_suffix_len_at(s, a, b);
        if k == 0 {
            break;
        }
        proof {
            let w = s@.subrange(a as int, b as int);
            assert(w.take(w.len() - k) =~= s@.subrange(a as int, b - k));
        }
        b = b - k;
    }
    let t = &s[a..b];
    proof {
        assert(leading_ws(s@) == a);
        assert(trailing_ws(u) == n - b);
        assert(t@ =~= u.take(u.len() - (n - b)));
    }
    t
}

proof fn lemma_digits_value_prefix(s: Seq<u8>, i: int)
    requires
        0 <= i <= s.len(),
        all_digits(s),
    ensures
        digits_value(s.take(i)) <= digits_value(s),
    decreases s.len() - i,
{
    if i < s.len() {
        lemma_digits_value_prefix(s, i + 1);
        assert(s.take(i + 1).drop_last() =~= s.take(i));
    } else {
        assert(s.take(i) =~= s);
    }
}

/// The decimal `u32` a field spells: an optional `+`, then one or more
/// digits, fitting in 32 bits.
pub fn parse_u32(s: &[u8]) -> (r: Option<u32>)
    ensures
        r == parse_u32_spec(s@),
{
    let n = s.len();
    let start: usize = if n > 0 && s[0] == 43 {
        1
    } else {
        0
    };
    let ghost body = field_body(s@);
    assert(body =~= s@.skip(start as int));
    if start >= n {
        return None;
    }
    let mut acc: u64 = 0;
    let mut i: usize = start;
    while i < n
        invariant
            n == s@.len(),
            start <= i <= n,
            body == s@.skip(start as int),
            body == field_body(s@),
            forall|k: int| start <= k < i ==> #[trigger] is_digit(s@[k]),
            acc == digits_value(body.take(i - start)),
            acc <= u32::MAX,
        decreases n - i,
    {
        let b = s[i];
        if !(48 <= b && b <= 57) {
            proof {
                assert(body[i - start] == s@[i as int]);
                assert(!is_digit(body[i - start]));
                assert(!all_digits(body));
            }
            return None;
        }
        proof {
            assert(body.take(i - start + 1).drop_last() =~= body.take(i - start));
            assert(body.take(i - start + 1).last() == b);
        }
        acc = acc * 10 + (b - 48) as u64;
        if acc > 0xffff_ffff {
            proof {
                if all_digits(body) {
                    lemma_digits_value_prefix(body, i - start + 1);
                    assert(digits_value(body) > u32::MAX);
                }
            }
            return None;
        }
        i += 1;
    }
    proof {
        assert(body.take(n - start) =~= body);
        assert forall|k: int| 0 <= k < body.len() implies #[trigger] is_digit(body[k]) by {
            assert(body[k] == s@[k + start]);
        }
        assert(all_digits(body));
    }
    Some(acc as u32)
}

} // verus!
