use download_cli::decimal::{parse_i32, parse_u64, u64_to_decimal};

#[test]
fn formats_like_display() {
    for n in [0u64, 7, 10, 99, 100, 4096, u64::MAX] {
        assert_eq!(u64_to_decimal(n), n.to_string());
    }
}

#[test]
fn parses_u64_like_from_str() {
    for s in ["0", "42", "+42", "007", "18446744073709551615", "18446744073709551616", "", "+", "-", "-1", "4 2", " 42", "4a", "١٢"] {
        assert_eq!(parse_u64(s), s.parse::<u64>().ok(), "input {:?}", s);
    }
}

#[test]
fn parses_i32_like_from_str() {
    for s in ["1", "2", "3", "-0", "+7", "-2147483648", "2147483647", "2147483648", "-2147483649", "", "-", "+", "--1", "x", "1.0"] {
        assert_eq!(parse_i32(s), s.parse::<i32>().ok(), "input {:?}", s);
    }
}

#[test]
fn formatted_reads_back() {
    for n in [0u64, 1, 65535, 1 << 40, u64::MAX] {
        assert_eq!(parse_u64(&u64_to_decimal(n)), Some(n));
    }
}
