use tacview_stats::text::{
    canonical_hex_u32, chars_of, contains_chars, copy_range, is_float_literal,
    parse_hex_i32_range, scan, string_contains, CharClass,
};

fn chars(s: &str) -> Vec<char> {
    chars_of(s)
}

#[test]
fn chars_of_keeps_every_character() {
    assert_eq!(chars("T=1|ü,x"), vec!['T', '=', '1', '|', 'ü', ',', 'x']);
    assert!(chars("").is_empty());
}

#[test]
fn scan_stops_at_first_character_outside_class() {
    let v = chars("12.5-|3,ab");
    assert_eq!(scan(&v, 0, CharClass::SignedDecimal), 5);
    assert_eq!(scan(&v, 0, CharClass::TransformField), 7);
    assert_eq!(scan(&v, 0, CharClass::UnsignedDecimal), 4);
    assert_eq!(scan(&v, 0, CharClass::NotComma), 7);
    assert_eq!(scan(&v, 8, CharClass::LowerHexDigit), 10);
    assert_eq!(scan(&v, 10, CharClass::Digit), 10);
}

#[test]
fn contains_agrees_with_str_contains() {
    let hay = ["", "Pilot=x", "abcPilotHead", "T=", "xT", "PiPilot=", "aaa"];
    let needles = ["", "Pilot=", "PilotHead", "T=", "a", "aa", "aaaa"];
    for h in hay {
        for n in needles {
            let hv = chars(h);
            let nv = chars(n);
            assert_eq!(contains_chars(&hv, nv.as_slice()), h.contains(n), "{h:?} {n:?}");
            assert_eq!(string_contains(&h.to_string(), &n.to_string()), h.contains(n));
        }
    }
}

#[test]
fn copy_range_copies_the_slice() {
    let v = chars("abcdef");
    assert_eq!(copy_range(&v, 1, 4), vec!['b', 'c', 'd']);
    assert!(copy_range(&v, 3, 3).is_empty());
}

#[test]
fn hex_parse_agrees_with_from_str_radix() {
    let cases = [
        "", "+", "-", "0", "-0", "+0", "1a", "1A", "ff", "FF", "7fffffff", "80000000",
        "-80000000", "-80000001", "ffffffff", "100000000", "000000000001", "g", "1g", " 1",
        "1 ", "--1", "+-1", "-+1", "abc", "-abc", "deadbeef", "0x10", "12345678",
    ];
    for c in cases {
        let v = chars(c);
        assert_eq!(parse_hex_i32_range(&v, 0, v.len()), i32::from_str_radix(c, 16).ok(), "{c:?}");
    }
}

#[test]
fn hex_parse_reads_a_sub_range() {
    let v = chars("-1a2,rest");
    assert_eq!(parse_hex_i32_range(&v, 1, 4), Some(0x1a2));
    assert_eq!(parse_hex_i32_range(&v, 0, 4), Some(-0x1a2));
    assert_eq!(parse_hex_i32_range(&v, 0, 5), None);
}

#[test]
fn canonical_hex_is_what_format_prints() {
    for n in [0u64, 1, 9, 10, 15, 16, 255, 0x102, 0x7fff_ffff, 0x8000_0000, 0xffff_ffff] {
        let s = format!("{:x}", n);
        let v = chars(&s);
        assert_eq!(canonical_hex_u32(&v, 0, v.len()), Some(n), "{s}");
    }
    for s in ["", "00", "0102", "1A", "100000000", "-1", "1,"] {
        let v = chars(s);
        assert_eq!(canonical_hex_u32(&v, 0, v.len()), None, "{s:?}");
    }
    let neg = format!("{:x}", -1i32);
    let v = chars(&neg);
    assert_eq!(canonical_hex_u32(&v, 0, v.len()), Some(0xffff_ffff));
}

#[test]
fn float_syntax_agrees_with_parse() {
    let cases = [
        "", "0", "-0", "+0", "1", "1.", ".5", ".", "-.", "1.2.3", "-1.25", "12e3", "1e", "1e+",
        "1e-5", "1E5", "1.5e+07", "e5", "inf", "-inf", "+Infinity", "INF", "infinit", "NaN",
        "-nan", "nan1", "--1", "1-", "0.0001", "4.25|", " 1", "1 ", "123456789012345678901234567890",
        "5.", "-5.e3", ".e3", "0x1",
    ];
    for c in cases {
        let v = chars(c);
        assert_eq!(is_float_literal(&v), c.parse::<f32>().is_ok(), "f32 {c:?}");
        assert_eq!(is_float_literal(&v), c.parse::<f64>().is_ok(), "f64 {c:?}");
    }
}

