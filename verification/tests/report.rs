use ims_rs::report::{byte2size, BatchStats};

fn with_floats(num: u64) -> String {
    let mut num_f = num as f64;
    for unit in ["", "K", "M", "G"].iter() {
        if num_f < 1024.0 {
            return format!("{:3.1}{}iB", num_f, unit);
        }
        num_f /= 1024.0;
    }
    format!("{:3.1}TiB", num_f)
}

#[test]
fn sizes_are_shown_with_one_digit_after_the_point() {
    assert_eq!(byte2size(0), "0.0iB");
    assert_eq!(byte2size(512), "512.0iB");
    assert_eq!(byte2size(1023), "1023.0iB");
    assert_eq!(byte2size(1024), "1.0KiB");
    assert_eq!(byte2size(1536), "1.5KiB");
    assert_eq!(byte2size(100_000), "97.7KiB");
    assert_eq!(byte2size(1_048_576), "1.0MiB");
    assert_eq!(byte2size(5_000_000_000), "4.7GiB");
    assert_eq!(byte2size(1 << 40), "1.0TiB");
    assert_eq!(byte2size(1 << 50), "1024.0TiB");
}

#[test]
fn halves_are_rounded_to_the_even_digit() {
    assert_eq!(byte2size(1280), "1.2KiB");
    assert_eq!(byte2size(1280 + 512), "1.8KiB");
    assert_eq!(byte2size(1024 + 51), "1.0KiB");
    assert_eq!(byte2size(1024 + 52), "1.1KiB");
    assert_eq!(byte2size(1_048_575), "1024.0KiB");
}

#[test]
fn sizes_agree_with_floating_point_formatting() {
    let mut samples: Vec<u64> = vec![0, 1, 9, 10, 999, 1000, u64::MAX, u64::MAX - 1, u64::MAX - 1024];
    for shift in 0..64 {
        let p = 1u64 << shift;
        for d in [0u64, 1, 2, 3, 51, 52, 256, 511, 512, 513, 768] {
            samples.push(p.wrapping_add(d));
            samples.push(p.wrapping_sub(d));
            samples.push(p.wrapping_add(p / 4).wrapping_add(d));
            samples.push(p.wrapping_add(p / 2).wrapping_sub(d));
            samples.push(p.wrapping_add(p / 1024 * 51).wrapping_add(d));
        }
    }
    let mut x: u64 = 0x9E37_79B9_7F4A_7C15;
    for _ in 0..20_000 {
        x ^= x << 13;
        x ^= x >> 7;
        x ^= x << 17;
        samples.push(x);
        samples.push(x >> (x % 64));
    }
    for n in 0..5000u64 {
        samples.push(n);
        samples.push(n * 256);
        samples.push((1 << 53) + n);
        samples.push((1 << 63) + n * 512);
    }
    for num in samples {
        assert_eq!(byte2size(num), with_floats(num), "{}", num);
    }
}

#[test]
fn wins_are_counted_by_name() {
    let mut stats = BatchStats::new();
    assert_eq!(stats.get("a"), 0);
    assert!(stats.entries().is_empty());
    stats.record_win("cjxl -d 1");
    stats.record_win("Copy input");
    stats.record_win("cjxl -d 1");
    stats.record_win("");
    stats.record_win("cjxl -d 1");
    assert_eq!(stats.get("cjxl -d 1"), 3);
    assert_eq!(stats.get("Copy input"), 1);
    assert_eq!(stats.get(""), 1);
    assert_eq!(stats.get("cjxl"), 0);
    let mut entries = stats.entries();
    entries.sort();
    assert_eq!(
        entries,
        vec![("".to_string(), 1), ("Copy input".to_string(), 1), ("cjxl -d 1".to_string(), 3)]
    );
}
