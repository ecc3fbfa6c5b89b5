use file_transfer::size::format_size;

fn reference(size: usize) -> String {
    const UNITS: &[&str] = &["B", "KB", "MB", "GB"];
    let mut size = size as f64;
    let mut unit = 0;
    while size >= 1024.0 && unit < UNITS.len() - 1 {
        size /= 1024.0;
        unit += 1;
    }
    format!("{:.1} {}", size, UNITS[unit])
}

#[test]
fn format_size_exact_values() {
    assert_eq!(format_size(0), "0.0 B");
    assert_eq!(format_size(1023), "1023.0 B");
    assert_eq!(format_size(1024), "1.0 KB");
    assert_eq!(format_size(1536), "1.5 KB");
    assert_eq!(format_size(1048576), "1.0 MB");
    assert_eq!(format_size(1073741824), "1.0 GB");
    assert_eq!(format_size(5 * 1073741824 / 2), "2.5 GB");
}

#[test]
fn format_size_rounds_ties_to_even() {
    // 1280 bytes are exactly 1.25 KB
    assert_eq!(format_size(1280), reference(1280));
    assert_eq!(format_size(1792), reference(1792));
}

#[test]
fn format_size_matches_float_formatting() {
    let mut samples: Vec<usize> = (0..5000).collect();
    for k in 0..4000usize {
        samples.push(1000 + k * 257);
        samples.push(1_048_000 + k * 104_729);
        samples.push(1_073_000_000usize.wrapping_add(k.wrapping_mul(1_000_003)));
    }
    for s in [1048575usize, 1048576, 1073741823, 1073741824, 1099511627776, usize::MAX, usize::MAX - 1] {
        samples.push(s);
    }
    let mut x: u64 = 0x9e3779b97f4a7c15;
    for _ in 0..20000 {
        x ^= x << 13;
        x ^= x >> 7;
        x ^= x << 17;
        samples.push(x as usize);
        samples.push((x >> 20) as usize);
        samples.push((x >> 40) as usize);
    }
    for s in samples {
        assert_eq!(format_size(s), reference(s), "size {}", s);
    }
}
