use igrok::text::truncate;
use igrok::usage_format::{fmt_duration, fmt_tokens};

#[test]
fn token_formatting() {
    assert_eq!(fmt_tokens(732), "732");
    assert_eq!(fmt_tokens(15664), "15.7k");
    assert_eq!(fmt_tokens(1_564_000), "1.56M");
}

#[test]
fn tokens_small_counts_are_exact() {
    assert_eq!(fmt_tokens(0), "0");
    assert_eq!(fmt_tokens(7), "7");
    assert_eq!(fmt_tokens(999), "999");
}

#[test]
fn tokens_thousands_round_like_binary64() {
    assert_eq!(fmt_tokens(1000), "1.0k");
    // 1.05 is stored slightly above, 1.15 slightly below, 1.25 exactly.
    assert_eq!(fmt_tokens(1050), "1.1k");
    assert_eq!(fmt_tokens(1150), "1.1k");
    assert_eq!(fmt_tokens(1250), "1.2k");
    assert_eq!(fmt_tokens(1350), "1.4k");
    assert_eq!(fmt_tokens(999_950), "1000.0k");
    assert_eq!(fmt_tokens(999_999), "1000.0k");
}

#[test]
fn tokens_millions_round_like_binary64() {
    assert_eq!(fmt_tokens(1_000_000), "1.00M");
    assert_eq!(fmt_tokens(1_005_000), "1.00M");
    assert_eq!(fmt_tokens(1_015_000), "1.01M");
    assert_eq!(fmt_tokens(1_025_000), "1.02M");
    assert_eq!(fmt_tokens(12_345_678_901_234_567), "12345678901.23M");
}

#[test]
fn tokens_beyond_53_bits_round_the_integer_first() {
    assert_eq!(fmt_tokens(9_007_199_254_740_993), "9007199254.74M");
    assert_eq!(fmt_tokens(9_007_199_254_740_995), "9007199254.74M");
    assert_eq!(fmt_tokens(9_007_199_254_740_993_000), "9007199254740.99M");
    assert_eq!(fmt_tokens(u64::MAX), "18446744073709.55M");
}

#[test]
fn tokens_match_float_formatting() {
    let samples: [u64; 12] = [
        1_000, 1_049, 1_051, 2_250, 2_750, 10_050, 123_456, 654_321, 1_234_567, 9_999_999, 73_115_000,
        1_000_005_000,
    ];
    for n in samples {
        let expected = if n >= 1_000_000 {
            format!("{:.2}M", n as f64 / 1_000_000.0)
        } else {
            format!("{:.1}k", n as f64 / 1_000.0)
        };
        assert_eq!(fmt_tokens(n), expected, "n = {n}");
    }
}

#[test]
fn duration_formatting() {
    assert_eq!(fmt_duration(0), "0s");
    assert_eq!(fmt_duration(59_999), "59s");
    assert_eq!(fmt_duration(60_000), "1m0s");
    assert_eq!(fmt_duration(3_599_999), "59m59s");
    assert_eq!(fmt_duration(3_600_000), "1h0m");
    assert_eq!(fmt_duration(7_384_000), "2h3m");
}

#[test]
fn truncation_marks_cuts() {
    assert_eq!(truncate("short", 24), "short");
    assert_eq!(truncate("exactly-five", 12), "exactly-five");
    assert_eq!(truncate("abcdefgh", 5), "abcd…");
    assert_eq!(truncate("héllo wörld", 4), "hél…");
    assert_eq!(truncate("abc", 0), "…");
    assert_eq!(truncate("abc", 1), "…");
}
