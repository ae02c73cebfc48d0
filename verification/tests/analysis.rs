use ci_bench_runner::analysis::{calculate_significance_thresholds, threshold_or_default};
use ci_bench_runner::db::BenchResult;
use ci_bench_runner::DEFAULT_NOISE_THRESHOLD;

fn lookup(thresholds: &Vec<(String, u64)>, name: &str) -> Option<u64> {
    thresholds.iter().find(|p| p.0 == name).map(|p| p.1)
}

#[test]
fn calculate_outlier_bounds_not_enough_results() {
    let thresholds = calculate_significance_thresholds(&Vec::new());
    assert_eq!(thresholds.len(), 0);
}

#[test]
fn calculate_outlier_bounds_many_results() {
    let historical_results: Vec<u64> = vec![100, 97, 98, 101, 100, 99, 97, 102, 99, 98];

    let bench_results: Vec<BenchResult> = historical_results
        .into_iter()
        .map(|result| BenchResult {
            name: "foo".to_string(),
            result,
        })
        .collect();
    let thresholds = calculate_significance_thresholds(&bench_results);

    assert_eq!(thresholds.len(), 1);
    let t = lookup(&thresholds, "foo").unwrap();
    // The threshold is a fraction in millionths; rounded to a whole percent
    // it is nine percent.
    assert_eq!(((t as f64 / 1_000_000.0) * 100.0).round(), 9.0);
    assert_eq!(t, 89_697);
}

#[test]
fn calculate_outlier_bounds_minimal() {
    let bench_results: Vec<BenchResult> = std::iter::repeat(1000u64)
        .take(10)
        .map(|result| BenchResult {
            name: "foo".to_string(),
            result,
        })
        .collect();
    let thresholds = calculate_significance_thresholds(&bench_results);

    assert_eq!(thresholds.len(), 1);
    assert_eq!(lookup(&thresholds, "foo"), Some(DEFAULT_NOISE_THRESHOLD));
}

#[test]
fn short_histories_get_no_threshold() {
    let bench_results: Vec<BenchResult> = std::iter::repeat(1000u64)
        .take(9)
        .map(|result| BenchResult {
            name: "foo".to_string(),
            result,
        })
        .collect();
    let thresholds = calculate_significance_thresholds(&bench_results);
    assert_eq!(lookup(&thresholds, "foo"), None);
    assert_eq!(thresholds.len(), 0);
}

#[test]
fn threshold_lookup_falls_back_to_default() {
    let thresholds = vec![("foo".to_string(), 89_697u64)];
    assert_eq!(threshold_or_default(&thresholds, "foo", DEFAULT_NOISE_THRESHOLD), 89_697);
    assert_eq!(
        threshold_or_default(&thresholds, "bar", DEFAULT_NOISE_THRESHOLD),
        DEFAULT_NOISE_THRESHOLD
    );
}
