use replay_rs::ringbuf::NS;
use replay_rs::seconds::{count_ns, Seconds};

/// Lengths of all sizes, and of all kinds of endings.
fn lengths() -> Vec<i64> {
    let mut lengths = vec![0, 1, 2, 3, 62, 63, 64, 65, 31_063, NS - 1, NS, NS + 1, i64::MAX, i64::MIN];
    let mut n: u64 = 88_172_645_463_325_252;
    for i in 0..3000u32 {
        n ^= n << 13;
        n ^= n >> 7;
        n ^= n << 17;
        let length = (n >> (i % 63 + 1)) as i64;
        lengths.push(length);
        lengths.push(-length);
        lengths.push(length / 1_000_000 * 1_000_000);
    }
    lengths
}

fn seconds(ns: i64) -> f64 {
    ns as i128 as f64 / NS as f64
}

#[test]
fn lengths_agree_with_double_precision() {
    for ns in lengths().into_iter().filter(|ns| ns.unsigned_abs() < 1 << 53) {
        let number = seconds(ns);
        assert_eq!(count_ns(ns), (number * NS as f64) as i64, "{ns}");
        assert_eq!(Seconds::of_ns(ns).whole_part(), number as i128, "{ns}");
    }
    assert_eq!(count_ns(1_001_000_000), 1_000_999_999);
    assert_eq!(count_ns(i64::MAX), i64::MAX);
    assert_eq!(count_ns(i64::MIN), i64::MIN);
}

#[test]
fn products_agree_with_double_precision() {
    for ns in lengths().into_iter().filter(|ns| ns.unsigned_abs() < 1 << 53) {
        for n in [0u64, 1, 2, 60, 100, 16_000, u32::MAX as u64] {
            let product = Seconds::of_ns(ns).times(n);
            let number = n as f64 * seconds(ns);
            assert_eq!(product.whole_part(), number as i128, "{ns} {n}");
            assert_eq!(product.times(2).whole_part(), (number * 2.0) as i128, "{ns} {n}");
        }
    }
}

#[test]
fn sums_agree_with_double_precision() {
    let lengths: Vec<i64> = lengths().into_iter().filter(|ns| ns.unsigned_abs() < 1 << 53).collect();
    for pair in lengths.windows(2) {
        let sum = Seconds::of_ns(pair[0]).plus(&Seconds::of_ns(pair[1])).plus(&Seconds::one());
        let number = seconds(pair[0]) + seconds(pair[1]) + 1.0;
        assert_eq!(sum.in_ns(), (number * NS as f64) as i64, "{pair:?}");
    }
}
