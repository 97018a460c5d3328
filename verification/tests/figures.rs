use easylog::figures::{error_rate, human_bytes};

fn float_bytes(n: i64) -> String {
    let units = ["B", "KB", "MB", "GB", "TB"];
    let mut v = n as f64;
    let mut i = 0;
    while v >= 1024.0 && i < units.len() - 1 {
        v /= 1024.0;
        i += 1;
    }
    if i == 0 {
        format!("{n} B")
    } else {
        format!("{v:.1} {}", units[i])
    }
}

fn float_rate(errors: i64, requests: i64) -> String {
    format!("{:.1}%", errors as f64 * 100.0 / requests as f64)
}

// A small generator of varied 64-bit values.
fn next(seed: &mut u64) -> u64 {
    *seed = seed.wrapping_mul(6364136223846793005).wrapping_add(1442695040888963407);
    *seed ^ (*seed >> 29)
}

#[test]
fn byte_counts_agree_with_floating_point() {
    let mut seed: u64 = 7;
    for shift in 0..63 {
        for _ in 0..400 {
            let n = (next(&mut seed) >> (shift + 1)) as i64;
            assert_eq!(human_bytes(n), float_bytes(n), "{n}");
            assert_eq!(human_bytes(-n), float_bytes(-n), "-{n}");
        }
        let edge = 1i64 << shift;
        for d in -3..4 {
            let n = edge.saturating_add(d);
            assert_eq!(human_bytes(n), float_bytes(n), "{n}");
        }
    }
    for n in [i64::MAX, i64::MIN, i64::MAX - 511, i64::MAX - 512, i64::MAX - 1024] {
        assert_eq!(human_bytes(n), float_bytes(n), "{n}");
    }
    for n in 0..200_000 {
        assert_eq!(human_bytes(n), float_bytes(n), "{n}");
    }
}

#[test]
fn byte_counts_half_way_between_decimals() {
    for unit in [1024i64, 1 << 20, 1 << 30, 1 << 40] {
        for quarters in 4..400 {
            let n = unit / 4 * quarters;
            for d in [-1, 0, 1] {
                assert_eq!(human_bytes(n + d), float_bytes(n + d), "{}", n + d);
            }
        }
    }
}

#[test]
fn error_rates_agree_with_floating_point() {
    for requests in 1..400 {
        for errors in -20..=requests {
            assert_eq!(error_rate(errors, requests), float_rate(errors, requests));
        }
    }
    for requests in [2000, 4000, 6000, 10_000, 1_000_000, 123_457] {
        for errors in 0..2000 {
            assert_eq!(error_rate(errors, requests), float_rate(errors, requests));
        }
    }
    let mut seed: u64 = 11;
    for i in 0..40_000u64 {
        let requests = ((next(&mut seed) >> 1) >> (i % 63)).max(1) as i64;
        let errors = (next(&mut seed) >> (i / 63 % 64)) as i64;
        assert_eq!(
            error_rate(errors, requests),
            float_rate(errors, requests),
            "{errors}/{requests}"
        );
    }
    for errors in [i64::MIN, i64::MAX, 0, 1, -1] {
        for requests in [1, 2, 3, i64::MAX, i64::MAX - 1] {
            assert_eq!(error_rate(errors, requests), float_rate(errors, requests));
        }
    }
}

#[test]
fn byte_counts_in_each_unit() {
    assert_eq!(human_bytes(-5), "-5 B");
    assert_eq!(human_bytes(0), "0 B");
    assert_eq!(human_bytes(1023), "1023 B");
    assert_eq!(human_bytes(1024), "1.0 KB");
    assert_eq!(human_bytes(1280), "1.2 KB");
    assert_eq!(human_bytes(1536), "1.5 KB");
    assert_eq!(human_bytes(1792), "1.8 KB");
    assert_eq!(human_bytes(1_048_575), "1024.0 KB");
    assert_eq!(human_bytes(5 * 1024 * 1024), "5.0 MB");
    assert_eq!(human_bytes(3 << 30), "3.0 GB");
    assert_eq!(human_bytes(7 << 40), "7.0 TB");
    assert_eq!(human_bytes(5000 << 40), "5000.0 TB");
    assert_eq!(human_bytes(1 << 53), "8192.0 TB");
    assert_eq!(human_bytes(i64::MAX), "8388608.0 TB");
}

#[test]
fn error_rates_as_shown() {
    assert_eq!(error_rate(0, 0), "0.0%");
    assert_eq!(error_rate(5, 0), "0.0%");
    assert_eq!(error_rate(5, -1), "0.0%");
    assert_eq!(error_rate(0, 10), "0.0%");
    assert_eq!(error_rate(42, 1000), "4.2%");
    assert_eq!(error_rate(1, 3), "33.3%");
    assert_eq!(error_rate(10, 10), "100.0%");
    // 0.05 has no exact double; the nearest one is above it.
    assert_eq!(error_rate(1, 2000), "0.1%");
    assert_eq!(error_rate(-1, 1_000_000), "-0.0%");
}
