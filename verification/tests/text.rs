use docker_dns::text::{
    is_space_char, parse_decimal, same, to_ascii_lowercase, trim, trim_end_matches, trim_matches,
    trim_start_matches,
};

#[test]
fn white_space_is_unicode_white_space() {
    for code in 0..=0x10ffff_u32 {
        if let Some(c) = char::from_u32(code) {
            assert_eq!(is_space_char(c), c.is_whitespace(), "U+{code:04X}");
        }
    }
}

#[test]
fn lower_case_is_ascii_lower_case() {
    for s in ["", "WEFT", "weft", "We-Ft_09.[]", "@AZ[`az{", "ÄÖÜ ẞ Ⅷ K"] {
        assert_eq!(to_ascii_lowercase(s), s.to_ascii_lowercase());
        // Lower case is lower case already.
        let low = to_ascii_lowercase(s);
        assert_eq!(to_ascii_lowercase(&low), low);
    }
}

#[test]
fn trimming_drops_whole_runs() {
    assert_eq!(trim_start_matches("//a/b/", '/'), "a/b/");
    assert_eq!(trim_start_matches("///", '/'), "");
    assert_eq!(trim_end_matches("a.b..", '.'), "a.b");
    assert_eq!(trim_end_matches(".", '.'), "");
    assert_eq!(trim_matches("..xxx.yy.", '.'), "xxx.yy");
    assert_eq!(trim_matches("...", '.'), "");
    assert_eq!(trim_matches("é.ü", '.'), "é.ü");
    assert_eq!(trim("\u{2003} a b\t"), "a b");
    assert_eq!(trim(" \n "), "");
    assert_eq!(trim(""), "");
}

#[test]
fn texts_are_the_same_or_not() {
    assert!(same("", ""));
    assert!(same("weft", "weft"));
    assert!(!same("weft", "wef"));
    assert!(!same("weft", "Weft"));
}

#[test]
fn decimal_numbers_are_read() {
    assert_eq!(parse_decimal("0", u64::MAX), Some(0));
    assert_eq!(parse_decimal("+30", u64::MAX), Some(30));
    assert_eq!(parse_decimal("007", u64::MAX), Some(7));
    assert_eq!(parse_decimal("18446744073709551615", u64::MAX), Some(u64::MAX));
    assert_eq!(parse_decimal("18446744073709551616", u64::MAX), None);
    assert_eq!(parse_decimal("256", 255), None);
    assert_eq!(parse_decimal("255", 255), Some(255));
    for bad in ["", "+", "-", "-0", "++1", "1 ", " 1", "1_0", "0x1", "1.0", "٣"] {
        assert_eq!(parse_decimal(bad, u64::MAX), None, "{bad:?}");
        assert!(bad.parse::<u64>().is_err());
    }
}
