use snd::size::human_readable_size;

#[test]
fn sizes_in_bytes() {
    assert_eq!(human_readable_size(0), "0 bytes");
    assert_eq!(human_readable_size(1), "1 bytes");
    assert_eq!(human_readable_size(1023), "1023 bytes");
}

#[test]
fn sizes_in_units() {
    assert_eq!(human_readable_size(1024), "1.00 KB");
    assert_eq!(human_readable_size(1536), "1.50 KB");
    assert_eq!(human_readable_size(1180), "1.15 KB");
    assert_eq!(human_readable_size(4096), "4.00 KB");
    assert_eq!(human_readable_size(1_048_575), "1024.00 KB");
    assert_eq!(human_readable_size(1_048_576), "1.00 MB");
    assert_eq!(human_readable_size(5 * 1024 * 1024 * 1024), "5.00 GB");
    assert_eq!(human_readable_size(1u64 << 40), "1.00 TB");
    assert_eq!(human_readable_size(1u64 << 50), "1.00 PB");
}

#[test]
fn sizes_round_half_to_even() {
    // 1152 / 1024 = 1.125 exactly, which `{:.2}` writes as 1.12.
    assert_eq!(human_readable_size(1152), "1.12 KB");
    // 1408 / 1024 = 1.375 exactly, written 1.38.
    assert_eq!(human_readable_size(1408), "1.38 KB");
}

#[test]
fn sizes_beyond_f64_precision() {
    // u64::MAX becomes 2^64 as a f64: 16384 PB.
    assert_eq!(human_readable_size(u64::MAX), "16384.00 PB");
    assert_eq!(human_readable_size((1u64 << 53) + 1), "8.00 PB");
}
