use timer_res_bench::reduce::find_resolution_index;
use timer_res_bench::reduce::select_optimal;
use timer_res_bench::reduce::ReduceError;
use timer_res_bench::reduce::reduce;
use timer_res_bench::store::ResultRecord;

fn rec(resolution_ticks: u64, delta_ticks: u64, stdev_ticks: u64) -> ResultRecord {
    ResultRecord { resolution_ticks, delta_ticks, stdev_ticks }
}

#[test]
fn empty_input_yields_nothing() {
    assert_eq!(reduce(&Vec::new()), None);
}

#[test]
fn single_record_wins() {
    let v = vec![rec(5000, 20000, 2000)];
    assert_eq!(reduce(&v), Some(rec(5000, 20000, 2000)));
}

#[test]
fn unique_minimum_wins() {
    let v = vec![rec(5000, 20000, 2000), rec(6000, 10000, 1000), rec(7000, 15000, 1500)];
    assert_eq!(reduce(&v), Some(rec(6000, 10000, 1000)));
}

#[test]
fn delta_tie_breaks_on_stdev() {
    let v = vec![rec(5000, 10000, 2000), rec(6000, 10000, 1000)];
    assert_eq!(reduce(&v), Some(rec(6000, 10000, 1000)));
    let w = vec![rec(5000, 10000, 1000), rec(6000, 10000, 2000)];
    assert_eq!(reduce(&w), Some(rec(5000, 10000, 1000)));
}

#[test]
fn full_tie_keeps_first() {
    let v = vec![rec(5000, 10000, 1000), rec(6000, 10000, 1000)];
    assert_eq!(reduce(&v), Some(rec(5000, 10000, 1000)));
}

#[test]
fn full_tie_keeps_first_under_permutation_of_others() {
    let v = vec![
        rec(4000, 30000, 1000),
        rec(5000, 10000, 1000),
        rec(6000, 10000, 1000),
        rec(7000, 20000, 1000),
    ];
    let w = vec![
        rec(7000, 20000, 1000),
        rec(5000, 10000, 1000),
        rec(6000, 10000, 1000),
        rec(4000, 30000, 1000),
    ];
    assert_eq!(reduce(&v), Some(rec(5000, 10000, 1000)));
    assert_eq!(reduce(&w), Some(rec(5000, 10000, 1000)));
}

#[test]
fn never_a_default_zero_record() {
    let r = reduce(&Vec::new());
    assert!(r.is_none());
    assert_ne!(r, Some(rec(0, 0, 0)));
}

#[test]
fn finds_first_matching_resolution() {
    let v = vec![rec(5000, 1, 1), rec(6000, 2, 2), rec(6000, 3, 3)];
    assert_eq!(find_resolution_index(&v, 6000), Some(1));
    assert_eq!(find_resolution_index(&v, 5000), Some(0));
    assert_eq!(find_resolution_index(&v, 7000), None);
}

#[test]
fn empty_result_set_is_a_distinct_fatal_condition() {
    assert_eq!(select_optimal(&Vec::new()), Err(ReduceError::EmptyResultSet));
}

#[test]
fn selection_matches_reduction() {
    let v = vec![rec(5000, 20000, 2000), rec(6000, 10000, 1000)];
    assert_eq!(select_optimal(&v), Ok(rec(6000, 10000, 1000)));
}
