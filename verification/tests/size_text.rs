use device_history::size::format_bytes;

fn by_floating_point(bytes: u64) -> String {
    const KB: u64 = 1024;
    const MB: u64 = 1024 * KB;
    const GB: u64 = 1024 * MB;
    const TB: u64 = 1024 * GB;
    if bytes >= TB {
        format!("{:.2} TB", bytes as f64 / TB as f64)
    } else if bytes >= GB {
        format!("{:.2} GB", bytes as f64 / GB as f64)
    } else if bytes >= MB {
        format!("{:.1} MB", bytes as f64 / MB as f64)
    } else if bytes >= KB {
        format!("{:.0} KB", bytes as f64 / KB as f64)
    } else {
        format!("{} B", bytes)
    }
}

#[test]
fn sizes_below_a_kilobyte_are_plain_bytes() {
    assert_eq!(format_bytes(0), "0 B");
    assert_eq!(format_bytes(1), "1 B");
    assert_eq!(format_bytes(1023), "1023 B");
}

#[test]
fn each_unit_has_its_decimals() {
    assert_eq!(format_bytes(1024), "1 KB");
    assert_eq!(format_bytes(1536), "2 KB");
    assert_eq!(format_bytes(2560), "2 KB");
    assert_eq!(format_bytes(1048576), "1.0 MB");
    assert_eq!(format_bytes(1572864), "1.5 MB");
    assert_eq!(format_bytes(1073741824), "1.00 GB");
    assert_eq!(format_bytes(4000787030016), "3.64 TB");
    assert_eq!(format_bytes(1099511627776), "1.00 TB");
    assert_eq!(format_bytes(u64::MAX), "16777216.00 TB");
}

#[test]
fn ties_go_to_the_even_digit() {
    // 9/8 of a terabyte is 1.125 exactly.
    assert_eq!(format_bytes(9 * 137438953472), "1.12 TB");
    // 11/8 of a terabyte is 1.375 exactly.
    assert_eq!(format_bytes(11 * 137438953472), "1.38 TB");
    // 1.25 megabytes with one decimal.
    assert_eq!(format_bytes(1310720), "1.2 MB");
    assert_eq!(format_bytes(1835008), "1.8 MB");
}

#[test]
fn text_agrees_with_floating_point_around_unit_borders() {
    let borders: [u64; 6] = [1 << 10, 1 << 20, 1 << 30, 1 << 40, 1 << 50, 1 << 53];
    for b in borders {
        for d in 0..2000u64 {
            assert_eq!(format_bytes(b + d), by_floating_point(b + d), "at {}", b + d);
            assert_eq!(format_bytes(b - d), by_floating_point(b - d), "at {}", b - d);
        }
    }
}

#[test]
fn text_agrees_with_floating_point_on_a_spread_of_sizes() {
    let mut x: u64 = 0x9E3779B97F4A7C15;
    for _ in 0..20000 {
        x ^= x << 13;
        x ^= x >> 7;
        x ^= x << 17;
        for shift in [0u32, 8, 16, 24, 32, 40, 48, 56] {
            let bytes = x >> shift;
            assert_eq!(format_bytes(bytes), by_floating_point(bytes), "at {}", bytes);
        }
    }
}

#[test]
fn text_agrees_with_floating_point_at_rounding_ties() {
    // Sizes whose quotient ends in an exact half of the last digit shown.
    for k in 1..4000u64 {
        let kb = k * 1024 + 512;
        assert_eq!(format_bytes(kb), by_floating_point(kb), "at {}", kb);
        let tb = (2 * k + 1) * (1u64 << 37);
        assert_eq!(format_bytes(tb), by_floating_point(tb), "at {}", tb);
        let gb = (2 * k + 1) * (1u64 << 27);
        assert_eq!(format_bytes(gb), by_floating_point(gb), "at {}", gb);
        let mb = (2 * k + 1) * (1u64 << 18);
        assert_eq!(format_bytes(mb), by_floating_point(mb), "at {}", mb);
    }
}

#[test]
fn text_agrees_with_floating_point_where_doubles_are_sparse() {
    // Above 2^53 a size is first rounded to the nearest double.
    for e in 53..64u32 {
        let base = 1u64 << e;
        let unit = 1u64 << (e - 52);
        for k in 0..300u64 {
            for off in [0u64, 1, unit / 2 - 1, unit / 2, unit / 2 + 1, unit - 1] {
                let bytes = base + k * unit + off;
                assert_eq!(format_bytes(bytes), by_floating_point(bytes), "at {}", bytes);
            }
        }
    }
    for d in 0..5000u64 {
        let bytes = u64::MAX - d;
        assert_eq!(format_bytes(bytes), by_floating_point(bytes), "at {}", bytes);
    }
}
