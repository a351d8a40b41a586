use datagram_bench::parse_byte_size;

#[test]
fn parses_byte_sizes() {
    assert_eq!(parse_byte_size("10MB").unwrap(), 10_000_000);
    assert_eq!(parse_byte_size("10 mb").unwrap(), 10_000_000);
    assert_eq!(parse_byte_size("64K").unwrap(), 64_000);
    assert_eq!(parse_byte_size("1_024").unwrap(), 1_024);
    assert_eq!(parse_byte_size("2GB").unwrap(), 2_000_000_000);
}

#[test]
fn rejects_invalid_byte_sizes() {
    assert!(parse_byte_size("").is_err());
    assert!(parse_byte_size("MB").is_err());
    assert!(parse_byte_size("1MiB").is_err());
    assert!(parse_byte_size("1.5GB").is_err());
}

fn error(input: &str) -> String {
    parse_byte_size(input).unwrap_err()
}

#[test]
fn errors_say_what_is_wrong() {
    assert_eq!(error(""), "size must not be empty");
    assert_eq!(error(" \t\u{3000}\n"), "size must not be empty");
    assert_eq!(error("MB"), "size must start with a number");
    assert_eq!(error("___"), "size must start with a number");
    assert_eq!(error("-1"), "size must start with a number");
    assert_eq!(error("1MiB"), "unsupported size unit: mib");
    assert_eq!(error("1.5GB"), "unsupported size unit: .5gb");
    assert_eq!(error("1 M\tB"), "unsupported size unit: m\tb");
    assert_eq!(error("1 k_b"), "unsupported size unit: k_b");
    assert_eq!(error("1 \u{c4}B"), "unsupported size unit: \u{c4}b");
    assert_eq!(error("\u{664}"), "size must start with a number");
}

#[test]
fn numbers_that_do_not_fit_are_refused() {
    let too_large = "18446744073709551616";
    let std_error = too_large.parse::<usize>().unwrap_err();
    assert_eq!(error(too_large), format!("invalid size: {std_error}"));
    assert_eq!(error("99999999999999999999999 parsecs"), format!("invalid size: {std_error}"));
    assert_eq!(error("18446744073709551615 parsecs"), "unsupported size unit: parsecs");
    assert_eq!(error("18446744073709551615k"), "size is too large");
    assert_eq!(error("18446744074GB"), "size is too large");
    assert_eq!(parse_byte_size("18446744073GB"), Ok(18_446_744_073_000_000_000));
    assert_eq!(parse_byte_size("18446744073709551615"), Ok(usize::MAX));
    assert_eq!(parse_byte_size("00000000000000000000000007b"), Ok(7));
}

#[test]
fn separators_and_blanks_do_not_matter() {
    assert_eq!(parse_byte_size("1_0__0_"), Ok(100));
    assert_eq!(parse_byte_size("_5 K"), Ok(5_000));
    assert_eq!(parse_byte_size("3 g b"), Ok(3_000_000_000));
    assert_eq!(parse_byte_size("3\u{a0}m"), Ok(3_000_000));
    assert_eq!(parse_byte_size("0 GB"), Ok(0));
}

#[test]
fn white_space_around_does_not_matter() {
    for size in ["10MB", "10 mb", "", "1MiB", "7"] {
        let padded = format!("\u{2003}\r\n{size}\u{85}\t ");
        assert_eq!(parse_byte_size(&padded), parse_byte_size(size));
    }
}

#[test]
fn letter_case_does_not_matter() {
    for size in ["10MB", "10Mb", "64K", "2GB", "1MiB", "B", "12b"] {
        assert_eq!(parse_byte_size(&size.to_ascii_lowercase()), parse_byte_size(size));
        assert_eq!(parse_byte_size(&size.to_ascii_uppercase()), parse_byte_size(size));
    }
}

#[test]
fn decimal_notation_is_read_back() {
    for n in [0, 1, 9, 10, 1_024, 16_777_216, usize::MAX - 1, usize::MAX] {
        assert_eq!(parse_byte_size(&n.to_string()), Ok(n));
    }
}

#[test]
fn white_space_is_that_of_unicode() {
    for code in 0..=0x10_ffffu32 {
        if let Some(c) = char::from_u32(code) {
            let trimmed = parse_byte_size(&format!("{c}5{c}")) == Ok(5);
            assert_eq!(trimmed, c.is_whitespace() || c == '_', "{code:x}");
        }
    }
}
