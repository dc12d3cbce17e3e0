use rand::Rng;
use tarpit::jitter::{floor_delay_ms, DEFAULT_MEAN_MS, DEFAULT_STD_DEV_MS};

#[test]
fn flooring_clamps_negatives_and_keeps_the_rest() {
    assert_eq!(floor_delay_ms(-1), 0);
    assert_eq!(floor_delay_ms(i64::MIN), 0);
    assert_eq!(floor_delay_ms(0), 0);
    assert_eq!(floor_delay_ms(1), 1);
    assert_eq!(floor_delay_ms(12345), 12345);
    assert_eq!(floor_delay_ms(i64::MAX), i64::MAX as u64);
}

#[test]
fn jitter_samples_are_nonnegative_with_mean_near_target() {
    let normal = rand_distr::Normal::new(DEFAULT_MEAN_MS as f64, DEFAULT_STD_DEV_MS as f64)
        .expect("a finite standard deviation");
    let mut rng = rand::rng();
    let n = 10000u64;
    let mut total: u64 = 0;
    for _ in 0..n {
        let sample: f64 = rng.sample(normal);
        let delay = floor_delay_ms(sample as i64);
        // u64: every sampled duration is >= 0 by construction
        total += delay;
    }
    let mean = total as f64 / n as f64;
    // mean 10s, tolerance 0.2s, in milliseconds
    assert!((mean - 10000.0).abs() < 200.0, "empirical mean {mean} ms");
}
