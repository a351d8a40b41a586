use datagram_bench::format_bitrate;
use std::time::Duration;

/// The same rate computed in floating point.
fn float_bitrate(bytes: u64, secs: u64, nanos: u32) -> String {
    let seconds = Duration::new(secs, nanos).as_secs_f64();
    if seconds == 0.0 || bytes == 0 {
        return "0bps".to_owned();
    }
    let mut rate = bytes as f64 * 8.0 / seconds;
    let mut unit = "bps";
    for next in ["Kbps", "Mbps", "Gbps", "Tbps"] {
        if rate < 1000.0 {
            break;
        }
        rate /= 1000.0;
        unit = next;
    }
    if unit == "bps" {
        format!("{rate:.0}{unit}")
    } else if rate < 10.0 {
        format!("{rate:.2}{unit}")
    } else if rate < 100.0 {
        format!("{rate:.1}{unit}")
    } else {
        format!("{rate:.0}{unit}")
    }
}

fn assert_same(bytes: u64, secs: u64, nanos: u32) {
    assert_eq!(
        format_bitrate(bytes, Duration::new(secs, nanos)),
        float_bitrate(bytes, secs, nanos),
        "{bytes} bytes in {secs}s {nanos}ns"
    );
}

#[test]
fn formats_bitrates_with_si_units() {
    assert_eq!(format_bitrate(0, Duration::from_secs(1)), "0bps");
    assert_eq!(format_bitrate(100, Duration::from_secs(1)), "800bps");
    assert_eq!(
        format_bitrate(125_000, Duration::from_secs(1)),
        "1.00Mbps"
    );
    assert_eq!(
        format_bitrate(500_000_000, Duration::from_secs(1)),
        "4.00Gbps"
    );
}

#[test]
fn no_time_is_no_rate() {
    assert_eq!(format_bitrate(1, Duration::from_secs(0)), "0bps");
    assert_eq!(format_bitrate(u64::MAX, Duration::new(0, 0)), "0bps");
}

#[test]
fn digits_follow_the_size_of_the_number() {
    assert_eq!(format_bitrate(124, Duration::from_secs(1)), "992bps");
    assert_eq!(format_bitrate(125, Duration::from_secs(1)), "1.00Kbps");
    assert_eq!(format_bitrate(1_250, Duration::from_secs(1)), "10.0Kbps");
    assert_eq!(format_bitrate(12_500, Duration::from_secs(1)), "100Kbps");
    assert_eq!(format_bitrate(1_234_567, Duration::from_secs(1)), "9.88Mbps");
    assert_eq!(
        format_bitrate(125_000_000_000, Duration::from_secs(1)),
        "1.00Tbps"
    );
    assert_eq!(
        format_bitrate(u64::MAX, Duration::new(0, 1)),
        "147573952589676384Tbps"
    );
}

#[test]
fn only_the_ratio_of_bytes_to_seconds_matters() {
    for (bytes, secs) in [(1, 3), (7, 16), (1_234_567, 9), (999_999, 1_000), (125, 1)] {
        for k in [1, 2, 3, 10, 1_000, 65_537] {
            assert_eq!(
                format_bitrate(k * bytes, Duration::from_secs(k * secs)),
                format_bitrate(bytes, Duration::from_secs(secs))
            );
        }
    }
    assert_eq!(format_bitrate(3_703_701, Duration::from_secs(27)), "1.10Mbps");
    assert_eq!(format_bitrate(1_234_567, Duration::from_secs(9)), "1.10Mbps");
}

#[test]
fn ties_go_to_the_even_digit() {
    assert_eq!(format_bitrate(1, Duration::from_secs(16)), "0bps");
    assert_eq!(format_bitrate(3, Duration::from_secs(16)), "2bps");
    assert_eq!(format_bitrate(5, Duration::from_secs(16)), "2bps");
    assert_eq!(format_bitrate(1_125, Duration::from_secs(8)), "1.12Kbps");
    assert_eq!(format_bitrate(1_375, Duration::from_secs(8)), "1.38Kbps");
}

#[test]
fn rates_equal_those_in_floating_point() {
    let bytes = [
        1, 2, 3, 7, 124, 125, 126, 999, 1_000, 1_249, 1_250, 12_499, 124_999, 125_000, 125_001,
        999_999, 1_234_567, 124_999_999, 125_000_000, 987_654_321, 9_007_199_254_740_993,
        9_007_199_254_740_995, u64::MAX - 1_024, u64::MAX - 1_023, u64::MAX - 1, u64::MAX,
    ];
    let secs = [
        0, 1, 2, 3, 7, 8, 16, 59, 1_000, 17_179_869_183, 17_179_869_184, 9_007_199_254_740_993,
        18_014_398_509_481_985, u64::MAX,
    ];
    let nanos = [
        0, 1, 2, 3, 999, 1_000_000, 123_456_789, 333_333_333, 500_000_000, 999_999_999,
    ];
    for b in bytes {
        for s in secs {
            for n in nanos {
                assert_same(b, s, n);
            }
        }
    }
}

#[test]
fn scattered_rates_equal_those_in_floating_point() {
    let mut state: u64 = 0x9e37_79b9_7f4a_7c15;
    let mut next = || {
        state ^= state << 13;
        state ^= state >> 7;
        state ^= state << 17;
        state
    };
    for _ in 0..100_000 {
        let bytes = next() >> (next() % 64);
        let secs = (next() >> (next() % 64)) * (next() % 2);
        let nanos = (next() % 1_000_000_000) as u32;
        assert_same(bytes, secs, nanos);
    }
    for k in 0..100_000u64 {
        assert_same(next() % 100_000, 1 << (k % 20), 0);
    }
}
