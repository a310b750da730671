use reel2mp3::text::{decimal, human_bytes, human_secs, split_words, tail, truncate};

/// The dashboard's byte sizes, computed the way a float-based formatter does.
fn float_size(n: u64) -> String {
    const UNITS: [&str; 4] = ["B", "KiB", "MiB", "GiB"];
    let mut v = n as f64;
    let mut u = 0;
    while v >= 1024.0 && u < UNITS.len() - 1 {
        v /= 1024.0;
        u += 1;
    }
    if u == 0 {
        format!("{n} B")
    } else {
        format!("{v:.1} {}", UNITS[u])
    }
}

#[test]
fn human_bytes_small_counts_are_whole_bytes() {
    assert_eq!(human_bytes(0), "0 B");
    assert_eq!(human_bytes(1), "1 B");
    assert_eq!(human_bytes(1023), "1023 B");
}

#[test]
fn human_bytes_uses_the_largest_unit() {
    assert_eq!(human_bytes(1024), "1.0 KiB");
    assert_eq!(human_bytes(1536), "1.5 KiB");
    assert_eq!(human_bytes(1048576), "1.0 MiB");
    assert_eq!(human_bytes(1073741824), "1.0 GiB");
    assert_eq!(human_bytes(5 * 1073741824 + 536870912), "5.5 GiB");
    // GiB is the largest unit.
    assert_eq!(human_bytes(1024 * 1073741824), "1024.0 GiB");
}

#[test]
fn human_bytes_rounds_halves_to_even() {
    // 1280 B is exactly 1.25 KiB, 1792 B exactly 1.75 KiB.
    assert_eq!(human_bytes(1280), float_size(1280));
    assert_eq!(human_bytes(1792), float_size(1792));
    assert_eq!(human_bytes(1280), "1.2 KiB");
    assert_eq!(human_bytes(1792), "1.8 KiB");
}

#[test]
fn human_bytes_matches_float_formatting() {
    let mut samples: Vec<u64> = vec![
        1000, 1023, 1024, 1025, 1075, 1076, 10239, 10240, 1048575, 1048576, 1099999, 52428,
        1073741823, 1073741824, 9007199254740991, 9007199254740992, 9007199254740993,
        9007199254740995, 18014398509481985, 18014398509481987, u64::MAX, u64::MAX - 1,
        (1u64 << 63) + 1, (1u64 << 63) + 1024, 123456789012345678,
    ];
    let mut x: u64 = 0x9E37_79B9_7F4A_7C15;
    for _ in 0..3000 {
        x ^= x << 13;
        x ^= x >> 7;
        x ^= x << 17;
        samples.push(x >> (x % 64));
    }
    for n in samples {
        assert_eq!(human_bytes(n), float_size(n), "n = {n}");
    }
}

#[test]
fn human_secs_formats_minutes_and_hours() {
    assert_eq!(human_secs(0), "0:00");
    assert_eq!(human_secs(5), "0:05");
    assert_eq!(human_secs(65), "1:05");
    assert_eq!(human_secs(3599), "59:59");
    assert_eq!(human_secs(3600), "1:00:00");
    assert_eq!(human_secs(3725), "1:02:05");
    assert_eq!(human_secs(36061), "10:01:01");
}

#[test]
fn decimal_writes_numbers() {
    assert_eq!(decimal(0), "0");
    assert_eq!(decimal(42), "42");
    assert_eq!(decimal(u64::MAX), "18446744073709551615");
}

#[test]
fn tail_keeps_the_end() {
    assert_eq!(tail("/home/me/Music/reels", 10), "…sic/reels");
    assert_eq!(tail("short", 10), "short");
    // Widths under 4 leave the text alone.
    assert_eq!(tail("/home/me/Music", 3), "/home/me/Music");
    assert_eq!(tail("abcdef", 4), "…def");
}

#[test]
fn truncate_keeps_the_start() {
    assert_eq!(truncate("hello world", 5), "hell…");
    assert_eq!(truncate("hello", 5), "hello");
    assert_eq!(truncate("hello", 1), "…");
    assert_eq!(truncate("hello", 0), "…");
    assert_eq!(truncate("", 0), "");
    assert_eq!(truncate("héllo wörld", 6), "héllo…");
}

#[test]
fn split_words_splits_on_unicode_whitespace() {
    assert_eq!(split_words("  a b\tc\n"), vec!["a", "b", "c"]);
    assert_eq!(split_words("x\u{3000}y\u{a0}z"), vec!["x", "y", "z"]);
    assert!(split_words(" \t ").is_empty());
}
