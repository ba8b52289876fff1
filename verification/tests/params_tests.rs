use timer_res_bench::params::ConfigError;
use timer_res_bench::params::SweepParameters;

#[test]
fn valid_configuration_is_kept() {
    let p = SweepParameters::new(5000, 1000, 7000, 100).unwrap();
    assert_eq!(p.start_ticks, 5000);
    assert_eq!(p.increment_ticks, 1000);
    assert_eq!(p.end_ticks, 7000);
    assert_eq!(p.samples, 100);
}

#[test]
fn zero_increment_is_rejected_at_load() {
    let r = SweepParameters::new(5000, 0, 7000, 100);
    assert_eq!(r, Err(ConfigError::NonPositiveIncrement));
}

#[test]
fn zero_start_is_rejected() {
    assert_eq!(SweepParameters::new(0, 1000, 7000, 100), Err(ConfigError::NonPositiveStart));
}

#[test]
fn zero_end_is_rejected() {
    assert_eq!(SweepParameters::new(5000, 1000, 0, 100), Err(ConfigError::NonPositiveEnd));
}

#[test]
fn non_positive_samples_are_rejected() {
    assert_eq!(SweepParameters::new(5000, 1000, 7000, 0), Err(ConfigError::NonPositiveSamples));
    assert_eq!(SweepParameters::new(5000, 1000, 7000, -5), Err(ConfigError::NonPositiveSamples));
}

#[test]
fn inverted_range_is_rejected() {
    assert_eq!(SweepParameters::new(7000, 1000, 5000, 100), Err(ConfigError::StartAboveEnd));
}

#[test]
fn unsteppable_range_is_rejected() {
    assert_eq!(
        SweepParameters::new(5000, u64::MAX, u64::MAX, 100),
        Err(ConfigError::RangeTooWide)
    );
}

#[test]
fn planned_rounds_on_exact_multiple() {
    let p = SweepParameters::new(5000, 1000, 7000, 100).unwrap();
    assert_eq!(p.planned_rounds(), 3);
}

#[test]
fn planned_rounds_on_inexact_range() {
    let p = SweepParameters::new(5000, 3000, 10000, 100).unwrap();
    assert_eq!(p.planned_rounds(), 2);
}

#[test]
fn single_point_range() {
    let p = SweepParameters::new(5000, 1000, 5000, 100).unwrap();
    assert_eq!(p.planned_rounds(), 1);
    assert_eq!(p.progress_total(), 0);
}

#[test]
fn progress_total_is_rounded_up() {
    let exact = SweepParameters::new(5000, 1000, 7000, 100).unwrap();
    assert_eq!(exact.progress_total(), 2);
    let inexact = SweepParameters::new(5000, 3000, 10000, 100).unwrap();
    assert_eq!(inexact.progress_total(), 2);
}
