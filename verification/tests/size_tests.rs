use dir_scanner::size::human_size;

/// The size formula with floating point, as a reference.
fn float_size(bytes: u64) -> String {
    const UNITS: [&str; 6] = ["B", "KB", "MB", "GB", "TB", "PB"];
    let mut size = bytes as f64;
    let mut unit = 0;
    while size >= 1024.0 && unit < UNITS.len() - 1 {
        size /= 1024.0;
        unit += 1;
    }
    if unit == 0 {
        format!("{bytes} {}", UNITS[unit])
    } else {
        format!("{size:.1} {}", UNITS[unit])
    }
}

#[test]
fn human_size_small_values_are_bytes() {
    assert_eq!(human_size(0), "0 B");
    assert_eq!(human_size(1), "1 B");
    assert_eq!(human_size(1023), "1023 B");
}

#[test]
fn human_size_exact_units() {
    assert_eq!(human_size(1024), "1.0 KB");
    assert_eq!(human_size(1536), "1.5 KB");
    assert_eq!(human_size(1024 * 1024), "1.0 MB");
    assert_eq!(human_size(5 * 1024 * 1024 * 1024), "5.0 GB");
    assert_eq!(human_size(1024u64.pow(4)), "1.0 TB");
    assert_eq!(human_size(1024u64.pow(5)), "1.0 PB");
    assert_eq!(human_size(1024u64.pow(6)), "1024.0 PB");
}

#[test]
fn human_size_matches_float_formula_on_a_range() {
    for b in 0..70_000u64 {
        assert_eq!(human_size(b), float_size(b), "bytes {b}");
    }
}

#[test]
fn human_size_matches_float_formula_near_boundaries() {
    let mut values = vec![u64::MAX, u64::MAX - 1, 1u64 << 53, (1u64 << 53) + 1, (1u64 << 60) + 12345];
    for p in 1..6u32 {
        let base = 1024u64.pow(p);
        for k in [1u64, 2, 3, 7, 10, 100, 999, 1000, 1023] {
            for d in [0u64, 1, 51, 52, 102, 103, 500] {
                if let Some(v) = base.checked_mul(k).and_then(|x| x.checked_add(d * (base / 1024))) {
                    values.push(v);
                    values.push(v.saturating_sub(1));
                }
            }
        }
    }
    let mut x: u64 = 0x9e37_79b9_7f4a_7c15;
    for _ in 0..20_000 {
        x ^= x << 13;
        x ^= x >> 7;
        x ^= x << 17;
        values.push(x >> (x % 60));
    }
    for v in values {
        assert_eq!(human_size(v), float_size(v), "bytes {v}");
    }
}
