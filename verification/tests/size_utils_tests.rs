use m3u_filter::size_utils::{human_readable_byte_size, parse_size_base_2, parse_size_upper};

/// The rendering as the float formatting computes it.
fn float_rendering(bytes: u64) -> String {
    let units = ["B", "KB", "MB", "GB", "TB"];
    let mut size = bytes as f64;
    let mut unit = units[0];
    for next_unit in units.iter().skip(1) {
        if size < 1024.0 {
            break;
        }
        size /= 1024.0;
        unit = next_unit;
    }
    format!("{size:.2} {unit}")
}

#[test]
fn parse_plain_bytes() {
    assert_eq!(parse_size_base_2("1234"), Ok(1234));
    assert_eq!(parse_size_base_2("  42  "), Ok(42));
    assert_eq!(parse_size_base_2("+7"), Ok(7));
}

#[test]
fn parse_units() {
    assert_eq!(parse_size_base_2("1KB"), Ok(1024));
    assert_eq!(parse_size_base_2("2 kb"), Ok(2048));
    assert_eq!(parse_size_base_2("3MB"), Ok(3 * 1_048_576));
    assert_eq!(parse_size_base_2("1 GB"), Ok(1_073_741_824));
    assert_eq!(parse_size_base_2("1TB"), Ok(1_099_511_628_000));
    assert_eq!(parse_size_base_2("5B"), Ok(5));
    assert_eq!(parse_size_base_2(" 5 b "), Ok(5));
}

#[test]
fn parse_invalid_number() {
    assert_eq!(parse_size_base_2("1.5MB"), Err("Invalid size: 1.5".to_string()));
    assert_eq!(parse_size_base_2("abc"), Err("Invalid size: ABC".to_string()));
    assert_eq!(parse_size_base_2("KB"), Err("Invalid size: ".to_string()));
    assert_eq!(parse_size_base_2(""), Err("Invalid size: ".to_string()));
    assert_eq!(parse_size_base_2("-1KB"), Err("Invalid size: -1".to_string()));
}

#[test]
fn parse_too_large() {
    assert_eq!(
        parse_size_base_2("18446744073709551615 kb"),
        Err("Size too large: 18446744073709551615 KB".to_string())
    );
    assert_eq!(parse_size_base_2("18446744073709551615"), Ok(u64::MAX));
    assert_eq!(
        parse_size_base_2("18446744073709551616"),
        Err("Invalid size: 18446744073709551616".to_string())
    );
}

#[test]
fn parse_upper_form() {
    assert_eq!(parse_size_upper("10 MB"), Ok(10 * 1_048_576));
    assert_eq!(parse_size_upper("10 mb"), Err("Invalid size: 10 mb".to_string()));
}

#[test]
fn human_readable_examples() {
    assert_eq!(human_readable_byte_size(0), "0.00 B");
    assert_eq!(human_readable_byte_size(1023), "1023.00 B");
    assert_eq!(human_readable_byte_size(1024), "1.00 KB");
    assert_eq!(human_readable_byte_size(1536), "1.50 KB");
    assert_eq!(human_readable_byte_size(1_048_576), "1.00 MB");
    assert_eq!(human_readable_byte_size(1_099_511_627_776), "1.00 TB");
}

#[test]
fn human_readable_matches_float_formatting() {
    let mut samples: Vec<u64> = vec![
        1, 5, 999, 1000, 1025, 1152, 1126, 1127, 1128, 1279, 2047, 10_240, 1_047_552, 1_048_575,
        1_572_864, 5_000_000, 123_456_789, 1_073_741_823, 9_999_999_999, 1_099_511_627_775,
        1_125_899_906_842_624, 9_007_199_254_740_993, 18_014_398_509_481_985, u64::MAX, u64::MAX - 1,
        (1u64 << 63) + 1, 1u64 << 53,
    ];
    let mut x: u64 = 0x9E37_79B9_7F4A_7C15;
    for _ in 0..20_000 {
        x ^= x << 13;
        x ^= x >> 7;
        x ^= x << 17;
        samples.push(x >> (x % 64));
    }
    for k in 0..5u32 {
        for m in [1u64, 3, 5, 7, 9, 11, 13, 15, 125, 375, 1025] {
            let unit = 1u64 << (10 * k);
            samples.push(unit * m / 8);
            samples.push(unit.saturating_mul(m));
        }
    }
    for b in samples {
        assert_eq!(human_readable_byte_size(b), float_rendering(b), "bytes = {b}");
    }
}
