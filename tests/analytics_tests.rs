use grainx::analytics::{
    calculate_correlation, predict_next_value, AnomalyDetector, AnomalyDetectorConfig,
    AnomalyStrategy, Baseline, Correlation, TimeSeriesPoint,
};
use grainx::formula::evaluate_metric_formula;
use grainx::series::BoundedSeries;

fn milli(v: f64) -> i32 {
    (v * 1000.0).round() as i32
}

fn millis(vs: &[f64]) -> Vec<i32> {
    vs.iter().map(|v| milli(*v)).collect()
}

fn coefficient(c: &Correlation) -> f64 {
    c.co_spread as f64 / ((c.spread_a as f64) * (c.spread_b as f64)).sqrt()
}

#[test]
fn test_correlation_perfect_positive() {
    let data1 = millis(&[1.0, 2.0, 3.0, 4.0, 5.0]);
    let data2 = millis(&[2.0, 4.0, 6.0, 8.0, 10.0]);
    let correlation = coefficient(&calculate_correlation(&data1, &data2).unwrap());
    assert!((correlation - 1.0).abs() < 0.001);
}

#[test]
fn test_correlation_no_correlation() {
    let data1 = millis(&[1.0, 2.0, 3.0, 4.0, 5.0]);
    let data2 = millis(&[5.0, 2.0, 8.0, 1.0, 6.0]);
    let correlation = calculate_correlation(&data1, &data2);
    assert!(correlation.is_some());
}

#[test]
fn test_prediction_basic() {
    let history = millis(&[10.0, 20.0, 30.0]);
    let prediction = predict_next_value(&history, 2).unwrap();
    assert_eq!(prediction, milli(25.0));
}

#[test]
fn test_metric_formula_basic() {
    let metrics = vec![("cpu_usage", 50_000i64)];
    let result = evaluate_metric_formula("cpu_usage * 2.0", &metrics).unwrap();
    assert_eq!(result, 100_000);
}

#[test]
fn test_metric_formula_addition() {
    let metrics = vec![("cpu_usage", 30_000i64)];
    let result = evaluate_metric_formula("cpu_usage + 20.0", &metrics).unwrap();
    assert_eq!(result, 50_000);
}

#[test]
fn correlation_exact_parts() {
    let c = calculate_correlation(&[1, 2, 3], &[1, 2, 4]).unwrap();
    // n·Σxy − Σx·Σy = 3·17 − 6·7, n·Σx² − (Σx)² = 3·14 − 36, n·Σy² − (Σy)² = 3·21 − 49
    assert_eq!(c.co_spread, 9);
    assert_eq!(c.spread_a, 6);
    assert_eq!(c.spread_b, 14);
}

#[test]
fn correlation_stays_within_unit_range() {
    let a = millis(&[3.5, -1.0, 7.25, 0.0, 2.0, 9.0]);
    let b = millis(&[1.0, 4.0, -2.5, 8.0, 0.5, 3.0]);
    let c = calculate_correlation(&a, &b).unwrap();
    assert!(c.co_spread * c.co_spread <= c.spread_a * c.spread_b);
    let r = coefficient(&c);
    assert!((-1.0..=1.0).contains(&r));
}

#[test]
fn correlation_with_itself_is_one() {
    let a = millis(&[4.0, 1.0, 9.5, 2.0]);
    let c = calculate_correlation(&a, &a).unwrap();
    assert_eq!(c.co_spread, c.spread_a);
    assert_eq!(c.spread_a, c.spread_b);
    assert!((coefficient(&c) - 1.0).abs() < 1e-12);
}

#[test]
fn correlation_with_reversed_progression_is_minus_one() {
    let a = millis(&[2.0, 4.5, 7.0, 9.5, 12.0, 14.5]);
    let mut b = a.clone();
    b.reverse();
    let c = calculate_correlation(&a, &b).unwrap();
    assert_eq!(c.co_spread, -c.spread_a);
    assert_eq!(c.spread_a, c.spread_b);
}

#[test]
fn correlation_fails_on_length_mismatch_or_empty() {
    assert!(calculate_correlation(&[1, 2, 3], &[1, 2]).is_none());
    assert!(calculate_correlation(&[], &[]).is_none());
    assert!(calculate_correlation(&[], &[1]).is_none());
}

#[test]
fn correlation_fails_on_constant_series() {
    assert!(calculate_correlation(&[5, 5, 5], &[1, 2, 3]).is_none());
    assert!(calculate_correlation(&[1, 2, 3], &[7, 7, 7]).is_none());
}

#[test]
fn prediction_rejects_bad_windows() {
    let history = millis(&[10.0, 20.0, 30.0]);
    assert_eq!(predict_next_value(&history, 0), None);
    assert_eq!(predict_next_value(&history, 4), None);
    assert_eq!(predict_next_value(&history, 3), Some(20_000));
}

#[test]
fn prediction_rounds_down() {
    assert_eq!(predict_next_value(&[1, 2], 2), Some(1));
    assert_eq!(predict_next_value(&[-1, -2], 2), Some(-2));
}

#[test]
fn formula_has_no_precedence() {
    assert_eq!(evaluate_metric_formula("2 + 3 * 4", &[]), Some(20_000));
    assert_eq!(evaluate_metric_formula("10 - 4 / 2", &[]), Some(3_000));
}

#[test]
fn formula_failures() {
    assert_eq!(evaluate_metric_formula("", &[]), None);
    assert_eq!(evaluate_metric_formula("   ", &[]), None);
    assert_eq!(evaluate_metric_formula("1 +", &[]), None);
    assert_eq!(evaluate_metric_formula("1 % 2", &[]), None);
    assert_eq!(evaluate_metric_formula("abc + 1", &[]), None);
    assert_eq!(evaluate_metric_formula("1 + x", &[]), None);
    assert_eq!(evaluate_metric_formula("0 / 0", &[]), None);
    assert_eq!(evaluate_metric_formula("-", &[]), None);
}

#[test]
fn formula_reads_exponents() {
    assert_eq!(evaluate_metric_formula("1e3 + 1", &[]), Some(1_001_000));
    assert_eq!(evaluate_metric_formula("1.5E2", &[]), Some(150_000));
    assert_eq!(evaluate_metric_formula("25e-3", &[]), Some(25));
    assert_eq!(evaluate_metric_formula("5e-4", &[]), Some(0));
    assert_eq!(evaluate_metric_formula("-2e+1", &[]), Some(-20_000));
    assert_eq!(evaluate_metric_formula("0e99999", &[]), Some(0));
    assert_eq!(evaluate_metric_formula("7e-99999", &[]), Some(0));
    assert_eq!(evaluate_metric_formula("1e30", &[]), None);
    assert_eq!(evaluate_metric_formula("1e", &[]), None);
    assert_eq!(evaluate_metric_formula("e5", &[]), None);
    assert_eq!(evaluate_metric_formula("1e-", &[]), None);
}

#[test]
fn formula_saturates_instead_of_failing() {
    assert_eq!(evaluate_metric_formula("1 / 0", &[]), Some(i64::MAX));
    assert_eq!(evaluate_metric_formula("-1 / 0", &[]), Some(i64::MIN));
    assert_eq!(evaluate_metric_formula("1 / 0 - 1", &[]), Some(i64::MAX - 1_000));
    assert_eq!(evaluate_metric_formula("9000000000000000 * 9000000000000000", &[]), Some(i64::MAX));
}

#[test]
fn formula_splits_on_unicode_whitespace() {
    assert_eq!(evaluate_metric_formula("2\u{a0}+\u{3000}3", &[]), Some(5_000));
    assert_eq!(evaluate_metric_formula("2\t*\n3", &[]), Some(6_000));
}

#[test]
fn formula_numbers_and_signs() {
    assert_eq!(evaluate_metric_formula("-1.5", &[]), Some(-1_500));
    assert_eq!(evaluate_metric_formula("+.25", &[]), Some(250));
    assert_eq!(evaluate_metric_formula("3.", &[]), Some(3_000));
    assert_eq!(evaluate_metric_formula("0.12345", &[]), Some(123));
    assert_eq!(evaluate_metric_formula("7 / 2", &[]), Some(3_500));
    assert_eq!(evaluate_metric_formula("-1 / 3", &[]), Some(-334));
}

#[test]
fn formula_substitutes_value_text() {
    let metrics = vec![("load", -250i64), ("mem", 1_050i64)];
    assert_eq!(evaluate_metric_formula("load * 2", &metrics), Some(-500));
    assert_eq!(evaluate_metric_formula("mem + load", &metrics), Some(800));
}

#[test]
fn formula_substitution_is_textual() {
    // "cpu" also matches inside "cpu_max", which then no longer reads as a number.
    let metrics = vec![("cpu", 1_000i64)];
    assert_eq!(evaluate_metric_formula("cpu_max + 1", &metrics), None);
}

fn detector(multiplier: u32) -> AnomalyDetector {
    AnomalyDetector::new(
        AnomalyDetectorConfig { threshold_multiplier: multiplier },
        AnomalyStrategy::Statistical,
    )
}

#[test]
fn anomaly_severity_is_exact() {
    let mut det = detector(2_000);
    let mut series = BoundedSeries::new(10);
    series.push(-1_000);
    series.push(1_000);
    det.train_model(&series, 42);
    assert_eq!(det.baseline, Baseline { mean: 0, std_dev: 1_000 });
    assert_eq!(det.last_train_time, Some(42));
    let a = det
        .detect_statistical_anomaly(&TimeSeriesPoint { timestamp: 7, value: 3_000 })
        .unwrap();
    assert_eq!(a.severity, 1_000);
    assert_eq!(a.timestamp, 7);
    assert_eq!((a.lower_bound, a.upper_bound), (-2_000, 2_000));
    assert!(det
        .detect_statistical_anomaly(&TimeSeriesPoint { timestamp: 8, value: 1_000 })
        .is_none());
}

#[test]
fn anomaly_untrained_flags_any_deviation() {
    let det = detector(2_000);
    let a = det.detect_statistical_anomaly(&TimeSeriesPoint { timestamp: 0, value: 1 }).unwrap();
    assert_eq!(a.severity, i64::MAX);
    assert!(det.detect_statistical_anomaly(&TimeSeriesPoint { timestamp: 0, value: 0 }).is_none());
}

#[test]
fn anomaly_training_on_empty_series_resets() {
    let mut det = detector(2_000);
    det.baseline = Baseline { mean: 5, std_dev: 5 };
    det.train_model(&BoundedSeries::new(4), 1);
    assert_eq!(det.baseline, Baseline { mean: 0, std_dev: 0 });
}

#[test]
fn anomaly_severity_uses_unrounded_threshold() {
    // Multiplier 1.5, standard deviation 0.001, mean 0, value 0.002: (0.002 - 0.0015) / 0.001.
    let mut det = detector(1_500);
    det.baseline = Baseline { mean: 0, std_dev: 1 };
    let a = det.detect_statistical_anomaly(&TimeSeriesPoint { timestamp: 0, value: 2 }).unwrap();
    assert_eq!(a.severity, 500);
    // 0.001 strays by one standard deviation, within the 1.5 allowed.
    assert!(det.detect_statistical_anomaly(&TimeSeriesPoint { timestamp: 0, value: 1 }).is_none());
}

#[test]
fn anomaly_severity_is_unbounded() {
    let mut det = detector(2_000);
    det.baseline = Baseline { mean: 0, std_dev: 1_000 };
    let a = det
        .detect_statistical_anomaly(&TimeSeriesPoint { timestamp: 0, value: 100_000 })
        .unwrap();
    assert_eq!(a.severity, 98_000);
}
