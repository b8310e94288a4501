use std::hash::{Hash, Hasher};

use arctic::humanize::{ago, compact, icon_texture_uri, megabytes, plural};

#[test]
fn compact_numbers() {
    assert_eq!(compact(999), "999");
    assert_eq!(compact(12_300), "12.3K");
    assert_eq!(compact(4_500_000), "4.5M");
}

#[test]
fn compact_edges() {
    assert_eq!(compact(0), "0");
    assert_eq!(compact(1000), "1.0K");
    assert_eq!(compact(999_999), "1000.0K");
    assert_eq!(compact(1_000_000), "1.0M");
    assert_eq!(compact(1_234_567), "1.2M");
    assert_eq!(compact(u64::MAX), "18446744073709.6M");
}

#[test]
fn relative_times() {
    assert_eq!(ago(Some(5)), "just now");
    assert_eq!(ago(Some(120)), "2 minutes ago");
    assert_eq!(ago(Some(3600)), "1 hour ago");
    assert_eq!(ago(Some(3 * 86_400)), "3 days ago");
    assert_eq!(ago(None), "never played");
}

#[test]
fn relative_time_edges() {
    assert_eq!(ago(Some(59)), "just now");
    assert_eq!(ago(Some(60)), "1 minute ago");
    assert_eq!(ago(Some(86_399)), "23 hours ago");
    assert_eq!(ago(Some(2_592_000)), "1 month ago");
    assert_eq!(ago(Some(40_000_000)), "15 months ago");
    assert_eq!(plural(0, "world"), "0 worlds ago");
}

#[test]
fn megabyte_sizes() {
    assert_eq!(megabytes(0), "0.0 MB");
    assert_eq!(megabytes(1_048_576), "1.0 MB");
    assert_eq!(megabytes(13_107_200), "12.5 MB");
    assert_eq!(megabytes(u64::MAX), "17592186044416.0 MB");
}

#[test]
fn icon_uris_follow_the_default_hasher() {
    let url = "https://cdn.modrinth.com/data/AANobbMI/icon.png";
    let mut hasher = std::collections::hash_map::DefaultHasher::new();
    url.hash(&mut hasher);
    assert_eq!(
        icon_texture_uri(url),
        format!("bytes://modicon/{:016x}", hasher.finish())
    );
    assert_ne!(icon_texture_uri(url), icon_texture_uri("https://example.com/a.png"));
}

#[test]
fn compact_matches_float_formatting() {
    let mut samples: Vec<u64> = vec![
        1_000, 1_049, 1_050, 1_051, 1_150, 1_250, 2_450, 12_250, 12_350, 12_450, 99_950,
        999_949, 999_950, 999_999, 1_000_000, 1_050_000, 1_250_000, 12_345_678, 99_950_000,
        (1 << 53) - 1, 1 << 53, (1 << 53) + 1, (1 << 60) + 12_345, u64::MAX - 1, u64::MAX,
    ];
    let mut x: u64 = 0x2545_f491_4f6c_dd1d;
    for _ in 0..20_000 {
        x ^= x << 13;
        x ^= x >> 7;
        x ^= x << 17;
        samples.push(x % 2_000_000);
        samples.push(x >> (x % 64));
    }
    for n in 1_000..20_000u64 {
        samples.push(n);
    }
    for n in samples {
        let expected = if n < 1_000 {
            n.to_string()
        } else if n < 1_000_000 {
            format!("{:.1}K", n as f64 / 1e3)
        } else {
            format!("{:.1}M", n as f64 / 1e6)
        };
        assert_eq!(compact(n), expected, "n = {n}");
    }
}

#[test]
fn megabytes_matches_float_formatting() {
    let mut samples: Vec<u64> = vec![
        0, 1, 52_428, 52_429, 104_857, 262_144, 786_432, 1_048_576, 1_572_864, 1_363_149,
        (1 << 53) - 1, (1 << 53) + 1, u64::MAX,
    ];
    let mut x: u64 = 0x9e37_79b9_7f4a_7c15;
    for _ in 0..20_000 {
        x ^= x << 13;
        x ^= x >> 7;
        x ^= x << 17;
        samples.push(x >> (x % 64));
    }
    for k in 0..4096u64 {
        samples.push(k * 52_428);
        samples.push(k * 262_144);
    }
    for b in samples {
        assert_eq!(megabytes(b), format!("{:.1} MB", b as f64 / (1024.0 * 1024.0)), "bytes = {b}");
    }
}
