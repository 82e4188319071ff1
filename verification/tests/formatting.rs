use tmez::performance::{fmt_bytes, format_cache, format_uptime};
use tmez::number::decimal_string;

/// The formatting that the byte counts get in floating point.
fn float_bytes(bytes: u64) -> String {
    const KB: f64 = 1024.0;
    const MB: f64 = KB * 1024.0;
    const GB: f64 = MB * 1024.0;
    const TB: f64 = GB * 1024.0;
    let b = bytes as f64;
    if b >= TB {
        format!("{:.2} ТБ", b / TB)
    } else if b >= GB {
        format!("{:.1} ГБ", b / GB)
    } else if b >= MB {
        format!("{:.1} МБ", b / MB)
    } else if b >= KB {
        format!("{:.1} КБ", b / KB)
    } else {
        format!("{} Б", bytes)
    }
}

fn float_cache(kb: u64) -> String {
    if kb >= 1024 {
        format!("{:.1} MB", kb as f64 / 1024.0)
    } else {
        format!("{} KB", kb)
    }
}

#[test]
fn fmt_bytes_small_counts_in_bytes() {
    assert_eq!(fmt_bytes(0), "0 Б");
    assert_eq!(fmt_bytes(1), "1 Б");
    assert_eq!(fmt_bytes(1023), "1023 Б");
}

#[test]
fn fmt_bytes_units() {
    assert_eq!(fmt_bytes(1024), "1.0 КБ");
    assert_eq!(fmt_bytes(1536), "1.5 КБ");
    assert_eq!(fmt_bytes(1048576), "1.0 МБ");
    assert_eq!(fmt_bytes(5 * 1073741824), "5.0 ГБ");
    assert_eq!(fmt_bytes(1099511627776), "1.00 ТБ");
    assert_eq!(fmt_bytes(3 * 1099511627776 / 2), "1.50 ТБ");
}

#[test]
fn fmt_bytes_rounds_half_to_even() {
    // 1.25 KB and 1.75 KB are exact ties at one decimal.
    assert_eq!(fmt_bytes(1280), "1.2 КБ");
    assert_eq!(fmt_bytes(1792), "1.8 КБ");
    // 1.125 TB is a tie at two decimals.
    assert_eq!(fmt_bytes(9 * (1u64 << 37)), "1.12 ТБ");
    assert_eq!(fmt_bytes(11 * (1u64 << 37)), "1.38 ТБ");
}

#[test]
fn fmt_bytes_agrees_with_float_formatting() {
    let mut samples: Vec<u64> = vec![u64::MAX, u64::MAX - 1, 1u64 << 63, (1u64 << 53) + 1, (1u64 << 53) - 1];
    for shift in 0..64u32 {
        let p = 1u64 << shift;
        for d in [0u64, 1, 2, 3, 51, 52, 100, 1000] {
            samples.push(p.wrapping_add(d));
            samples.push(p.wrapping_sub(d));
        }
        for m in [3u64, 5, 7, 9, 11, 13, 15, 1023, 1025] {
            samples.push(p.wrapping_mul(m) / 8);
        }
    }
    let mut x: u64 = 0x9E37_79B9_7F4A_7C15;
    for _ in 0..20000 {
        x ^= x << 13;
        x ^= x >> 7;
        x ^= x << 17;
        samples.push(x);
        samples.push(x >> (x % 64));
    }
    for b in samples {
        assert_eq!(fmt_bytes(b), float_bytes(b), "bytes {}", b);
    }
}

#[test]
fn format_cache_agrees_with_float_formatting() {
    assert_eq!(format_cache(512), "512 KB");
    assert_eq!(format_cache(1024), "1.0 MB");
    assert_eq!(format_cache(8192), "8.0 MB");
    assert_eq!(format_cache(1088), "1.1 MB");
    let mut x: u64 = 12345;
    for k in 0..5000u64 {
        x = x.wrapping_mul(6364136223846793005).wrapping_add(1442695040888963407);
        for kb in [k, x, x >> 20, x >> 40, u64::MAX - k] {
            assert_eq!(format_cache(kb), float_cache(kb), "kb {}", kb);
        }
    }
}

#[test]
fn format_uptime_parts() {
    assert_eq!(format_uptime(0), "0м 0с");
    assert_eq!(format_uptime(59), "0м 59с");
    assert_eq!(format_uptime(61), "1м 1с");
    assert_eq!(format_uptime(3600), "1ч 0м 0с");
    assert_eq!(format_uptime(3 * 86400 + 4 * 3600 + 5 * 60 + 6), "3д 4ч 5м 6с");
    assert_eq!(format_uptime(86400), "1д 0ч 0м 0с");
}

#[test]
fn decimal_string_matches_display() {
    for n in [0u64, 7, 10, 99, 100, 12345, u64::MAX] {
        assert_eq!(decimal_string(n), n.to_string());
    }
}
