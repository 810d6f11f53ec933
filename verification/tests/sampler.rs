use heatingpump::sampler::{rank, PercentileError, Percentiles, Sampler};

#[test]
fn rank_adds_a_half_rounds_and_stays_inside() {
    assert_eq!(rank(4, 5), 1);
    assert_eq!(rank(10, 50), 6);
    assert_eq!(rank(10, 5), 1);
    assert_eq!(rank(10, 4), 1);
    assert_eq!(rank(10, 0), 1);
    assert_eq!(rank(10, 95), 9);
    assert_eq!(rank(10, 80), 9);
    assert_eq!(rank(10, 79), 8);
    assert_eq!(rank(100, 95), 96);
    assert_eq!(rank(100, 100), 99);
    assert_eq!(rank(1, 0), 0);
    assert_eq!(rank(1, 100), 0);
    assert_eq!(rank(2, 0), 1);
    assert_eq!(rank(3, 50), 2);
    assert_eq!(rank(120, 25), 31);
    assert_eq!(rank(usize::MAX, 100), usize::MAX - 1);
}

#[test]
fn second_of_four_samples_at_five_hundredths() {
    let mut s = Sampler::new();
    for v in [1_000i64, 2_000, 3_000, 4_000] {
        assert!(s.record(v, 1));
    }
    assert_eq!(s.ranked(5), Ok(2_000));
    assert_eq!(s.percentile(5), Ok(2_000));
}

#[test]
fn record_expands_by_seconds() {
    let mut s = Sampler::new();
    assert!(s.record(7, 3));
    assert!(s.record(9, 0));
    assert!(s.record(-1, 2));
    assert_eq!(s.len(), 5);
    assert_eq!(s.ranked(0), Ok(7));
    assert_eq!(s.ranked(40), Ok(-1));
    assert_eq!(s.ranked(39), Ok(7));
    assert_eq!(s.ranked(100), Ok(-1));
}

#[test]
fn percentile_sorts_first() {
    let mut s = Sampler::new();
    assert!(s.record(30, 1));
    assert!(s.record(10, 1));
    assert!(s.record(20, 1));
    assert!(s.record(-5, 1));
    assert_eq!(s.ranked(100), Ok(-5));
    assert_eq!(s.ranked(0), Ok(10));
    assert_eq!(s.percentile(100), Ok(30));
    assert_eq!(s.ranked(100), Ok(30));
    assert_eq!(s.percentile(0), Ok(10));
    assert_eq!(s.percentile(25), Ok(20));
    assert_eq!(s.percentile(50), Ok(30));
    assert_eq!(s.len(), 4);
}

#[test]
fn percentile_of_weighted_samples() {
    let mut s = Sampler::new();
    assert!(s.record(20_000, 10));
    assert!(s.record(10_000, 90));
    assert_eq!(s.percentile(5), Ok(10_000));
    assert_eq!(s.percentile(50), Ok(10_000));
    assert_eq!(s.percentile(88), Ok(10_000));
    assert_eq!(s.percentile(89), Ok(20_000));
    assert_eq!(s.percentile(95), Ok(20_000));
}

#[test]
fn percentiles_never_decrease() {
    let mut s = Sampler::new();
    for (v, n) in [(5i64, 3u64), (-2, 7), (11, 1), (0, 4), (5, 2)] {
        assert!(s.record(v, n));
    }
    let mut last = i64::MIN;
    for p in [5u32, 25, 50, 75, 95] {
        let v = s.percentile(p).unwrap();
        assert!(last <= v);
        last = v;
    }
}

#[test]
fn percentile_refuses_a_fraction_above_one() {
    let mut s = Sampler::new();
    assert!(s.record(3, 1));
    assert!(s.record(1, 1));
    assert_eq!(s.percentile(101), Err(PercentileError::OutOfRange));
    assert_eq!(s.ranked(200), Err(PercentileError::OutOfRange));
    assert_eq!(s.ranked(100), Ok(1));
    assert_eq!(s.percentile(100), Ok(3));
}

#[test]
fn quantiles_of_sorted_buffer() {
    let mut s = Sampler::new();
    assert_eq!(s.quantiles(), None);
    for v in (0..100).rev() {
        assert!(s.record(v, 1));
    }
    s.sort();
    assert_eq!(
        s.quantiles(),
        Some(Percentiles { p05: 6, p25: 26, p50: 51, p75: 76, p95: 96 })
    );
}

#[test]
fn clear_empties_the_buffer() {
    let mut s = Sampler::new();
    assert!(s.record(1, 10));
    s.clear();
    assert_eq!(s.len(), 0);
    assert_eq!(s.quantiles(), None);
    assert!(s.record(4, 1));
    assert_eq!(s.percentile(50), Ok(4));
}
