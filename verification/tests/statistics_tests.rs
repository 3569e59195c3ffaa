use pingtest::statistics::{calculate_statistics, integer_sqrt, Statistics};

#[test]
fn test_ping_statistics() {
    let ping_times: Vec<u32> = vec![10_000, 15_000, 12_000, 18_000, 11_000];

    let stats = calculate_statistics(&ping_times);

    assert_eq!(stats.count, 5);
    assert!(stats.mean > 0);
    assert!(stats.median > 0);
    assert_eq!(stats.min, 10_000);
    assert_eq!(stats.max, 18_000);
    assert!(stats.std_dev <= stats.max - stats.min);
    assert!(stats.jitter <= stats.max - stats.min);
}

#[test]
fn statistics_of_five_samples_are_exact() {
    let samples: Vec<u32> = vec![10_000, 15_000, 12_000, 18_000, 11_000];
    let stats = calculate_statistics(&samples);
    assert_eq!(
        stats,
        Statistics {
            count: 5,
            mean: 13_200,
            median: 12_000,
            min: 10_000,
            max: 18_000,
            std_dev: 2_925,
            jitter: 5_250,
        }
    );
}

#[test]
fn statistics_of_no_samples_are_all_zero() {
    let samples: Vec<u32> = Vec::new();
    let stats = calculate_statistics(&samples);
    assert_eq!(
        stats,
        Statistics { count: 0, mean: 0, median: 0, min: 0, max: 0, std_dev: 0, jitter: 0 }
    );
}

#[test]
fn statistics_of_one_sample() {
    let samples: Vec<u32> = vec![42];
    let stats = calculate_statistics(&samples);
    assert_eq!(
        stats,
        Statistics { count: 1, mean: 42, median: 42, min: 42, max: 42, std_dev: 0, jitter: 0 }
    );
}

#[test]
fn median_of_an_even_count_is_the_mean_of_the_middle_two() {
    let samples: Vec<u32> = vec![40, 10, 30, 20];
    let stats = calculate_statistics(&samples);
    assert_eq!(stats.median, 25);
    let samples: Vec<u32> = vec![1, 2];
    assert_eq!(calculate_statistics(&samples).median, 1);
    let samples: Vec<u32> = vec![u32::MAX, u32::MAX];
    assert_eq!(calculate_statistics(&samples).median, u32::MAX);
}

#[test]
fn statistics_round_down() {
    let samples: Vec<u32> = vec![1, 2, 2];
    let stats = calculate_statistics(&samples);
    assert_eq!(stats.mean, 1);
    assert_eq!(stats.median, 2);
    assert_eq!(stats.std_dev, 0);
    assert_eq!(stats.jitter, 0);
    let samples: Vec<u32> = vec![0, 10];
    let stats = calculate_statistics(&samples);
    assert_eq!(stats.mean, 5);
    assert_eq!(stats.std_dev, 5);
    assert_eq!(stats.jitter, 10);
    let samples: Vec<u32> = vec![0, 1];
    let stats = calculate_statistics(&samples);
    assert_eq!(stats.mean, 0);
    assert_eq!(stats.std_dev, 0);
    assert_eq!(stats.jitter, 1);
}

#[test]
fn statistics_hold_at_the_largest_samples() {
    let samples: Vec<u32> = vec![0, u32::MAX, 0, u32::MAX];
    let stats = calculate_statistics(&samples);
    assert_eq!(stats.count, 4);
    assert_eq!(stats.min, 0);
    assert_eq!(stats.max, u32::MAX);
    assert_eq!(stats.mean, u32::MAX / 2);
    assert_eq!(stats.median, u32::MAX / 2);
    assert_eq!(stats.std_dev, u32::MAX / 2);
    assert_eq!(stats.jitter, u32::MAX);
    let samples: Vec<u32> = vec![u32::MAX; 1000];
    let stats = calculate_statistics(&samples);
    assert_eq!(stats.mean, u32::MAX);
    assert_eq!(stats.std_dev, 0);
    assert_eq!(stats.jitter, 0);
}

#[test]
fn standard_deviation_agrees_with_floating_point() {
    let samples: Vec<u32> = vec![9_812, 10_431, 25_007, 9_990, 11_245, 10_002, 48_113, 9_871];
    let stats = calculate_statistics(&samples);
    let n = samples.len() as f64;
    let mean = samples.iter().map(|x| *x as f64).sum::<f64>() / n;
    let variance = samples.iter().map(|x| (*x as f64 - mean).powi(2)).sum::<f64>() / n;
    assert_eq!(stats.std_dev, variance.sqrt().floor() as u32);
    assert_eq!(stats.mean, mean.floor() as u32);
}

#[test]
fn calculate_statistics_is_pure() {
    let samples: Vec<u32> = vec![10_000, 15_000, 12_000, 18_000, 11_000];
    let kept = samples.clone();
    let first = calculate_statistics(&samples);
    let second = calculate_statistics(&samples);
    assert_eq!(first, second);
    assert_eq!(samples, kept);
    let again = calculate_statistics(&kept);
    assert_eq!(first, again);
}

#[test]
fn only_the_jitter_depends_on_the_order() {
    let one: Vec<u32> = vec![10, 20, 30, 40];
    let other: Vec<u32> = vec![10, 40, 20, 30];
    let a = calculate_statistics(&one);
    let b = calculate_statistics(&other);
    assert_eq!(a.count, b.count);
    assert_eq!(a.mean, b.mean);
    assert_eq!(a.median, b.median);
    assert_eq!(a.min, b.min);
    assert_eq!(a.max, b.max);
    assert_eq!(a.std_dev, b.std_dev);
    assert_eq!(a.jitter, 10);
    assert_eq!(b.jitter, 20);
}

#[test]
fn integer_sqrt_rounds_down() {
    assert_eq!(integer_sqrt(0), 0);
    assert_eq!(integer_sqrt(1), 1);
    assert_eq!(integer_sqrt(3), 1);
    assert_eq!(integer_sqrt(4), 2);
    assert_eq!(integer_sqrt(8_560_000), 2_925);
    assert_eq!(integer_sqrt(99), 9);
    assert_eq!(integer_sqrt(100), 10);
    assert_eq!(integer_sqrt(u64::MAX), u32::MAX);
    assert_eq!(integer_sqrt((u32::MAX as u64) * (u32::MAX as u64)), u32::MAX);
    assert_eq!(integer_sqrt((u32::MAX as u64) * (u32::MAX as u64) - 1), u32::MAX - 1);
}
