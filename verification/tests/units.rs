use activity_monitor::units::{format_bytes, format_bytes_per_sec, format_duration};

/// The text the dashboard shows for a byte count, computed with doubles.
fn float_bytes(bytes: u64) -> String {
    let units = ["B", "KB", "MB", "GB", "TB"];
    let mut size = bytes as f64;
    let mut unit_idx = 0;
    while size >= 1024.0 && unit_idx < units.len() - 1 {
        size /= 1024.0;
        unit_idx += 1;
    }
    if unit_idx == 0 {
        format!("{} {}", size as u64, units[unit_idx])
    } else {
        format!("{:.2} {}", size, units[unit_idx])
    }
}

#[test]
fn bytes_small_counts_are_exact() {
    assert_eq!(format_bytes(0), "0 B");
    assert_eq!(format_bytes(1), "1 B");
    assert_eq!(format_bytes(512), "512 B");
    assert_eq!(format_bytes(1023), "1023 B");
}

#[test]
fn bytes_units() {
    assert_eq!(format_bytes(1024), "1.00 KB");
    assert_eq!(format_bytes(1536), "1.50 KB");
    assert_eq!(format_bytes(1024 * 1024), "1.00 MB");
    assert_eq!(format_bytes(5 * 1024 * 1024 * 1024), "5.00 GB");
    assert_eq!(format_bytes(1024u64.pow(4)), "1.00 TB");
    assert_eq!(format_bytes(1024u64.pow(5)), "1024.00 TB");
    assert_eq!(format_bytes(u64::MAX), "16777216.00 TB");
}

#[test]
fn bytes_round_half_to_even() {
    // 1.125 KB and 1.375 KB are ties at two decimals.
    assert_eq!(format_bytes(1152), "1.12 KB");
    assert_eq!(format_bytes(1408), "1.38 KB");
    // Just below a unit rounds up to 1024.00.
    assert_eq!(format_bytes(1024 * 1024 - 1), "1024.00 KB");
}

#[test]
fn bytes_match_double_formatting() {
    let mut values: Vec<u64> = Vec::new();
    for i in 0..5000u64 {
        values.push(i);
        values.push(i * 37 + 1000);
        values.push(i * 1_000_003);
        values.push(i.wrapping_mul(0x9E37_79B9_7F4A_7C15));
    }
    for e in 0..64u32 {
        let p = 1u64 << e;
        for d in 0..4u64 {
            values.push(p.wrapping_add(d));
            values.push(p.wrapping_sub(d));
            values.push(p.wrapping_add(p / 2).wrapping_add(d));
        }
    }
    // Counts that doubles cannot hold exactly.
    for k in 0..2000u64 {
        values.push((1u64 << 53) + k);
        values.push((1u64 << 60) + k * 64 + 31);
        values.push(u64::MAX - k);
        values.push(u64::MAX - k * 1024);
    }
    for &v in &values {
        assert_eq!(format_bytes(v), float_bytes(v), "count {}", v);
    }
}

#[test]
fn bytes_per_sec_appends_unit() {
    assert_eq!(format_bytes_per_sec(0), "0 B/s");
    assert_eq!(format_bytes_per_sec(2048), "2.00 KB/s");
    assert_eq!(format_bytes_per_sec(1500), "1.46 KB/s");
}

#[test]
fn duration_leaves_out_leading_zero_units() {
    assert_eq!(format_duration(0), "0s");
    assert_eq!(format_duration(59), "59s");
    assert_eq!(format_duration(60), "1m 0s");
    assert_eq!(format_duration(3599), "59m 59s");
    assert_eq!(format_duration(3600), "1h 0m 0s");
    assert_eq!(format_duration(86399), "23h 59m 59s");
    assert_eq!(format_duration(86400), "1d 0h 0m 0s");
    assert_eq!(format_duration(2 * 86400 + 3 * 3600 + 4 * 60 + 5), "2d 3h 4m 5s");
    assert_eq!(format_duration(u64::MAX), "213503982334601d 7h 0m 15s");
}

#[test]
fn duration_parts_add_up() {
    for secs in [0u64, 1, 61, 3661, 90061, 1_000_000, 987_654_321] {
        let text = format_duration(secs);
        let mut total: u64 = 0;
        for part in text.split(' ') {
            let (num, unit) = part.split_at(part.len() - 1);
            let n: u64 = num.parse().unwrap();
            total += n * match unit {
                "d" => 86400,
                "h" => 3600,
                "m" => 60,
                _ => 1,
            };
        }
        assert_eq!(total, secs);
    }
}
