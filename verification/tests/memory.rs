use arctic::memory::parse_memory;

#[test]
fn memory_sizes() {
    assert_eq!(parse_memory("4G"), Some(4096));
    assert_eq!(parse_memory("1.5g"), Some(1536));
    assert_eq!(parse_memory("6144M"), Some(6144));
    assert_eq!(parse_memory("2048"), Some(2048));
    assert_eq!(parse_memory("lots"), None);
    assert_eq!(parse_memory("0"), None);
}

#[test]
fn memory_suffixes_and_spacing() {
    assert_eq!(parse_memory("  6GB "), Some(6144));
    assert_eq!(parse_memory("512mb"), Some(512));
    assert_eq!(parse_memory("4 G"), Some(4096));
    assert_eq!(parse_memory("G"), None);
    assert_eq!(parse_memory(""), None);
    assert_eq!(parse_memory("4B"), None);
}

#[test]
fn memory_number_forms() {
    assert_eq!(parse_memory("+8"), Some(8));
    assert_eq!(parse_memory("-8"), None);
    assert_eq!(parse_memory(".5g"), Some(512));
    assert_eq!(parse_memory("2."), Some(2));
    assert_eq!(parse_memory("1e3"), Some(1000));
    assert_eq!(parse_memory("2E-1G"), Some(205));
    assert_eq!(parse_memory("0.4"), Some(0));
    assert_eq!(parse_memory("0.5"), Some(1));
    assert_eq!(parse_memory("."), None);
    assert_eq!(parse_memory("1e"), None);
    assert_eq!(parse_memory("nan"), None);
    assert_eq!(parse_memory("inf"), Some(u32::MAX));
    assert_eq!(parse_memory("-infinity"), None);
    assert_eq!(parse_memory("5000000G"), Some(u32::MAX));
    assert_eq!(parse_memory("4294967295"), Some(u32::MAX));
    assert_eq!(parse_memory("1e99999999999999999999999999999999"), Some(u32::MAX));
    assert_eq!(parse_memory("1e-99999999999999999999999999999999"), None);
    assert_eq!(parse_memory("0.00049G"), Some(1));
    assert_eq!(parse_memory("000123.4500"), Some(123));
}

/// What reading the number as an `f64` gives (the launcher's own rule).
fn read_as_double(text: &str) -> Option<u32> {
    let t = text.trim().to_ascii_uppercase();
    let (num, mult) = if let Some(n) = t.strip_suffix('G').or_else(|| t.strip_suffix("GB")) {
        (n, 1024.0)
    } else if let Some(n) = t.strip_suffix('M').or_else(|| t.strip_suffix("MB")) {
        (n, 1.0)
    } else {
        (t.as_str(), 1.0)
    };
    let value: f64 = num.trim().parse().ok()?;
    if value > 0.0 {
        Some((value * mult).round() as u32)
    } else {
        None
    }
}

/// `2^-1075` written out in full: `5^1075` after 1075 decimal places.
fn smallest_half_text() -> String {
    let mut digits: Vec<u32> = vec![1];
    for _ in 0..1075 {
        let mut carry = 0;
        for d in digits.iter_mut() {
            let t = *d * 5 + carry;
            *d = t % 10;
            carry = t / 10;
        }
        while carry > 0 {
            digits.push(carry % 10);
            carry /= 10;
        }
    }
    let body: String = digits.iter().rev().map(|d| char::from_digit(*d, 10).unwrap()).collect();
    let zeros = 1075 - body.len();
    format!("0.{}{}", "0".repeat(zeros), body)
}

#[test]
fn memory_reads_the_nearest_double() {
    assert_eq!(parse_memory("1e-400"), None);
    assert_eq!(parse_memory("2.4999999999999999999"), Some(3));
    assert_eq!(parse_memory("0.49999999999999999999"), Some(1));
    assert_eq!(parse_memory("0.49999999999999994"), Some(0));
    let half = smallest_half_text();
    assert_eq!(parse_memory(&half), None);
    assert_eq!(parse_memory(&format!("{half}1")), Some(0));
    assert_eq!(parse_memory(&format!("{half}0000")), None);
    let samples = [
        "2.4703282292062327e-324",
        "2.4703282292062328e-324",
        "4.9406564584124654e-324",
        "1e-323",
        "9.99e-324",
        "1e-5",
        "0.0004882812499999999",
        "0.00048828125G",
        "0.000488281249999999999999G",
        "1.4999999999999998",
        "1.49999999999999999",
        "4095.4999999999995",
        "4095.49999999999995",
        "4294967295.4999999",
        "4294967294.5",
        "2.5G",
        "0.00244140625g",
        "123456.78901234567890123456789",
        "9999999999.5",
        "1e10",
        "17976931348623157e292",
        "1.8e308",
        "-0.0",
        "0e5",
        "1e-2G",
    ];
    for s in samples {
        assert_eq!(parse_memory(s), read_as_double(s), "{s}");
    }
    for k in [0u64, 1, 2, 7, 100, 4095, 65535, 1 << 20, 1 << 31] {
        for tail in ["4999999999999999", "49999999999999995", "499999999999999999", "5", "50000000000000001", "4999999999999998"] {
            for unit in ["", "M", "G"] {
                let s = format!("{k}.{tail}{unit}");
                assert_eq!(parse_memory(&s), read_as_double(&s), "{s}");
            }
        }
    }
}
