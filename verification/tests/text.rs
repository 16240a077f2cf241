use slipstream::text::{chars_of, decimal_text, joined, parse_unsigned, read_setting, trimmed, white_space};

#[test]
fn white_space_is_that_of_unicode() {
    for n in 0..0x11_0000u32 {
        if let Some(c) = char::from_u32(n) {
            assert_eq!(white_space(c), c.is_whitespace(), "{:x}", n);
        }
    }
}

#[test]
fn decimal_numbers_are_written_and_read() {
    for n in [0, 9, 10, 11, 99, 100, 4_294_967_295, u64::MAX - 1, u64::MAX] {
        let s = decimal_text(n);
        assert_eq!(s, n.to_string());
        assert_eq!(parse_unsigned(&s, u64::MAX), Some(n));
    }
}

#[test]
fn numbers_are_read_as_the_standard_library_reads_them() {
    let texts = [
        "", "+", "-", "-0", "+0", "0", "00", "007", "+7", "++7", "7+", " 7", "7 ", "7_0", "0x7", "\u{663}",
        "18446744073709551615", "18446744073709551616", "99999999999999999999999", "9999999999999999999999x",
        "4294967295", "4294967296",
    ];
    for t in texts {
        assert_eq!(parse_unsigned(t, u64::MAX), t.parse::<u64>().ok(), "{}", t);
        assert_eq!(parse_unsigned(t, u32::MAX as u64), t.parse::<u32>().ok().map(u64::from), "{}", t);
    }
}

#[test]
fn missing_or_unreadable_setting_has_its_default() {
    assert_eq!(read_setting(&None, 10, 3), 3);
    assert_eq!(read_setting(&Some("4".to_string()), 10, 3), 4);
    assert_eq!(read_setting(&Some("11".to_string()), 10, 3), 3);
    assert_eq!(read_setting(&Some("x".to_string()), 10, 3), 3);
}

#[test]
fn trimming_takes_white_space_off_both_ends() {
    for s in ["", " ", "a", " a b\t", "\u{3000}\n x \r", "\u{200b}x"] {
        assert_eq!(trimmed(&chars_of(s)), s.trim());
    }
    assert_eq!(joined("ab", "c"), "abc");
}
