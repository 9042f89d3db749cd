use rubbish::size::{human_size, short_size};

#[test]
fn test_human_size_basic() {
    assert_eq!(human_size(0), "0 B");
    assert_eq!(human_size(512), "512 B");
    assert_eq!(human_size(1024), "1.0 KiB");
    assert_eq!(human_size(1536), "1.5 KiB");
    assert_eq!(human_size(1024 * 1024), "1.0 MiB");
    assert_eq!(human_size(1024_u64.pow(3)), "1.0 GiB");
}

#[test]
fn tui_test_human_size_basic() {
    assert_eq!(human_size(0), "0 B");
    assert_eq!(human_size(512), "512 B");
    assert_eq!(human_size(1024), "1.0 KiB");
    assert_eq!(human_size(1536), "1.5 KiB");
    assert_eq!(human_size(1024 * 1024), "1.0 MiB");
    assert_eq!(human_size(1024_u64.pow(3)), "1.0 GiB");
}

#[test]
fn larger_units() {
    assert_eq!(human_size(1023), "1023 B");
    assert_eq!(human_size(1024_u64.pow(4)), "1.0 TiB");
    assert_eq!(human_size(1024_u64.pow(5)), "1.0 PiB");
    assert_eq!(human_size(u64::MAX), "16384.0 PiB");
    assert_eq!(human_size(1024 * 1024 - 1), "1024.0 KiB");
}

#[test]
fn ties_go_to_the_even_tenth() {
    // 1.25 and 1.75 KiB
    assert_eq!(human_size(1280), "1.2 KiB");
    assert_eq!(human_size(1792), "1.8 KiB");
}

fn by_floating_point(bytes: u64) -> String {
    let b = bytes as f64;
    let k: f64 = 1024.0;
    if b < k {
        format!("{} B", bytes)
    } else if b < k.powi(2) {
        format!("{:.1} KiB", b / k)
    } else if b < k.powi(3) {
        format!("{:.1} MiB", b / k.powi(2))
    } else if b < k.powi(4) {
        format!("{:.1} GiB", b / k.powi(3))
    } else if b < k.powi(5) {
        format!("{:.1} TiB", b / k.powi(4))
    } else {
        format!("{:.1} PiB", b / k.powi(5))
    }
}

#[test]
fn sizes_agree_with_floating_point() {
    let mut x: u64 = 0x9E37_79B9_7F4A_7C15;
    for round in 0..20_000u32 {
        x = x.wrapping_mul(6364136223846793005).wrapping_add(1442695040888963407);
        let n = x >> (round % 64);
        assert_eq!(human_size(n), by_floating_point(n));
    }
    for shift in 0..64u32 {
        let p = 1u64 << shift;
        for n in [p - 1, p, p + 1, p | (p >> 1), p | (p >> 1) | (p >> 5)] {
            assert_eq!(human_size(n), by_floating_point(n));
        }
    }
    for n in [
        (1u64 << 53) + 1,
        (1u64 << 54) + 2,
        (1u64 << 54) + 6,
        u64::MAX - 1024,
        u64::MAX - 1025,
        u64::MAX - 1023,
    ] {
        assert_eq!(human_size(n), by_floating_point(n));
    }
}

#[test]
fn short_sizes() {
    assert_eq!(short_size(0), "0 B");
    assert_eq!(short_size(1023), "1023 B");
    assert_eq!(short_size(1536), "1.5 KB");
    assert_eq!(short_size(3 * 1024 * 1024), "3.0 MB");
    assert_eq!(short_size(1024_u64.pow(3)), "1.0 GB");
    assert_eq!(short_size(2 * 1024_u64.pow(4)), "2048.0 GB");
}

/// The bytes that a text stands for, times ten.
fn ten_times(text: &str) -> u128 {
    let (number, unit) = text.split_once(' ').unwrap();
    let power = ["B", "KiB", "MiB", "GiB", "TiB", "PiB"].iter().position(|u| *u == unit).unwrap();
    let tenths: u128 = match number.split_once('.') {
        Some((whole, part)) => 10 * whole.parse::<u128>().unwrap() + part.parse::<u128>().unwrap(),
        None => 10 * number.parse::<u128>().unwrap(),
    };
    tenths * 1024u128.pow(power as u32)
}

#[test]
fn larger_files_never_show_smaller_sizes() {
    let mut sizes: Vec<u64> = vec![0, 1, 1023, u64::MAX, u64::MAX - 1025];
    for shift in 0..64u32 {
        let p = 1u64 << shift;
        sizes.extend([p - 1, p, p + 1, p + p / 3, p + p / 20, p + p / 20 + 1]);
    }
    sizes.sort();
    for pair in sizes.windows(2) {
        assert!(ten_times(&human_size(pair[0])) <= ten_times(&human_size(pair[1])));
    }
    assert_eq!(ten_times("1.5 KiB"), 15360);
}
