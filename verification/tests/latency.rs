use slipstream::latency::{latency_summary, percentile, sorted, P50, P95, P99};

#[test]
fn samples_are_sorted() {
    assert!(sorted(&vec![]).is_empty());
    assert_eq!(sorted(&vec![3, 1, 2, 3, 0]), vec![0, 1, 2, 3, 3]);
}

#[test]
fn no_samples_no_summary() {
    assert_eq!(latency_summary(&vec![]), None);
    assert_eq!(percentile(&vec![], P50), 0);
}

#[test]
fn summary_of_twenty_samples() {
    let samples: Vec<u64> = (1..=20).rev().map(|n| n * 10).collect();
    let s = latency_summary(&samples).unwrap();
    assert_eq!(s.count, 20);
    assert_eq!(s.total_ns, 2100);
    assert_eq!(s.p50_ns, 110);
    assert_eq!(s.p95_ns, 190);
    assert_eq!(s.p99_ns, 200);
}

#[test]
fn total_may_exceed_a_sample() {
    let s = latency_summary(&vec![u64::MAX, u64::MAX]).unwrap();
    assert_eq!(s.total_ns, 2 * (u64::MAX as u128));
}

fn float_place(n: usize, p: f64) -> usize {
    ((n - 1) as f64 * p).round() as usize
}

#[test]
fn reported_shares_are_doubles() {
    assert_eq!(P50, 0.50f64.to_bits());
    assert_eq!(P95, 0.95f64.to_bits());
    assert_eq!(P99, 0.99f64.to_bits());
}

#[test]
fn places_are_those_of_floats() {
    let mut seed: u64 = 1;
    for n in (1..600usize).chain([65_537, 1_000_051, 1_000_011]) {
        let samples: Vec<u64> = (0..n as u64).collect();
        let mut shares = vec![0.0, -0.0, 1.0, 0.29, 0.50, 0.95, 0.99, 1.0 / 3.0, 5e-324, 1e-300, 1.0 - 1e-16];
        for _ in 0..20 {
            seed = seed.wrapping_mul(6364136223846793005).wrapping_add(1442695040888963407);
            shares.push((seed >> 11) as f64 / (1u64 << 53) as f64);
            shares.push(f64::from_bits(seed % 0x3ff0_0000_0000_0001));
            shares.push((seed % 1001) as f64 / 1000.0);
        }
        for p in shares {
            assert_eq!(percentile(&samples, p.to_bits()), float_place(n, p) as u64, "{} {}", n, p);
        }
    }
}

#[test]
fn share_just_below_a_place_between_two_is_rounded_down() {
    let samples: Vec<u64> = (0..51).collect();
    assert_eq!(percentile(&samples, 0.29f64.to_bits()), 14);
    assert_eq!(percentile(&samples, 0.99f64.to_bits()), 50);
    assert_eq!(percentile(&samples[..2].to_vec(), P50), 1);
    assert_eq!(percentile(&samples[..11].to_vec(), P95), 10);
}

#[test]
fn other_doubles_have_the_place_of_floats_too() {
    let samples: Vec<u64> = (0..10).collect();
    for p in [-1.0, -1e300, f64::NAN, f64::NEG_INFINITY, 1.05, -f64::NAN, -5e-324] {
        assert_eq!(percentile(&samples, p.to_bits()), float_place(10, p) as u64, "{}", p);
    }
    for p in [1e300, f64::INFINITY, 2.0, 9007199254740993.0] {
        assert_eq!(percentile(&vec![7], p.to_bits()), 7);
        assert_eq!(float_place(1, p), 0);
    }
}

#[test]
fn percentiles_are_ascending_samples() {
    let samples = vec![40, 10, 30, 20];
    let ascending = sorted(&samples);
    let mut last = 0;
    for n in 0..=1000 {
        let x = percentile(&ascending, (n as f64 / 1000.0).to_bits());
        assert!(samples.contains(&x) && x >= last);
        last = x;
    }
    assert_eq!(percentile(&ascending, 0.0f64.to_bits()), 10);
    assert_eq!(percentile(&ascending, P50), 30);
    assert_eq!(percentile(&ascending, 1.0f64.to_bits()), 40);
}
