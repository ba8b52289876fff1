use timer_res_bench::measurement::MeasurementSample;
use timer_res_bench::measurement::ParseError;
use timer_res_bench::preflight::missing_dependencies;
use timer_res_bench::reduce::reduce;
use timer_res_bench::store::ResultRecord;
use timer_res_bench::sweep::RoundAction;
use timer_res_bench::sweep::RoundDisposition;
use timer_res_bench::sweep::RoundOutcome;
use timer_res_bench::sweep::SweepState;
use timer_res_bench::sweep::SweepStatus;
use timer_res_bench::params::SweepParameters;

fn measured(mean_ticks: u64, stdev_ticks: u64) -> RoundOutcome {
    RoundOutcome::Measured(MeasurementSample { mean_ticks, stdev_ticks })
}

#[test]
fn three_round_sweep_selects_the_lowest_jitter() {
    // start 0.5 ms, increment 0.1 ms, end 0.7 ms, 100 samples
    let params = SweepParameters::new(5000, 1000, 7000, 100).unwrap();
    let mut state = SweepState::begin(params);
    let samples = [measured(20000, 2000), measured(10000, 1000), measured(15000, 1500)];
    let mut resolutions = Vec::new();
    let mut round = 0;
    while let RoundAction::Measure { resolution_ticks, samples: n } = state.next_action() {
        assert_eq!(n, 100);
        resolutions.push(resolution_ticks);
        state.apply_round(samples[round]);
        round += 1;
    }
    assert_eq!(resolutions, vec![5000, 6000, 7000]);
    assert_eq!(round, 3);
    assert_eq!(state.status, SweepStatus::Complete);
    assert_eq!(state.rounds_done, 3);
    let best = reduce(&state.records).unwrap();
    assert_eq!(best.resolution_ticks, 6000);
}

#[test]
fn unparsable_output_aborts_with_no_further_rounds() {
    let params = SweepParameters::new(5000, 1000, 7000, 100).unwrap();
    let mut state = SweepState::begin(params);
    state.apply_round(measured(20000, 2000));
    let d = state.apply_round(RoundOutcome::OutputUnparsable(ParseError::MissingField));
    assert_eq!(d, RoundDisposition::Fatal);
    assert_eq!(state.status, SweepStatus::Aborted);
    assert_eq!(state.next_action(), RoundAction::Done);
    assert_eq!(state.records.len(), 1);
    assert_eq!(state.rounds_done, 1);
}

#[test]
fn sampler_failure_aborts() {
    let params = SweepParameters::new(5000, 1000, 7000, 100).unwrap();
    let mut state = SweepState::begin(params);
    let d = state.apply_round(RoundOutcome::SamplerFailed);
    assert_eq!(d, RoundDisposition::Fatal);
    assert_eq!(state.status, SweepStatus::Aborted);
    assert_eq!(state.next_action(), RoundAction::Done);
    assert!(state.records.is_empty());
}

#[test]
fn degenerate_sample_is_dropped_but_sweep_goes_on() {
    let params = SweepParameters::new(5000, 1000, 7000, 100).unwrap();
    let mut state = SweepState::begin(params);
    let d1 = state.apply_round(measured(0, 1000));
    assert_eq!(d1, RoundDisposition::Degenerate);
    let d2 = state.apply_round(measured(10000, 0));
    assert_eq!(d2, RoundDisposition::Degenerate);
    let d3 = state.apply_round(measured(10000, 1000));
    assert_eq!(
        d3,
        RoundDisposition::Recorded(ResultRecord {
            resolution_ticks: 7000,
            delta_ticks: 10000,
            stdev_ticks: 1000,
        })
    );
    assert_eq!(state.status, SweepStatus::Complete);
    assert_eq!(state.rounds_done, 3);
    assert_eq!(state.records.len(), 1);
}

#[test]
fn rounds_attempted_match_the_plan() {
    for (start, inc, end) in [(5000u64, 1000u64, 7000u64), (5000, 3000, 10000), (1, 1, 10)] {
        let params = SweepParameters::new(start, inc, end, 10).unwrap();
        let mut state = SweepState::begin(params);
        let mut rounds = 0u64;
        while let RoundAction::Measure { .. } = state.next_action() {
            state.apply_round(measured(10000, 1000));
            rounds += 1;
        }
        assert_eq!(rounds, params.planned_rounds());
        assert_eq!(state.rounds_done, params.planned_rounds());
        assert_eq!(state.status, SweepStatus::Complete);
    }
}

#[test]
fn records_keep_sweep_order() {
    let params = SweepParameters::new(5000, 1000, 7000, 100).unwrap();
    let mut state = SweepState::begin(params);
    state.apply_round(measured(20000, 2000));
    state.apply_round(measured(10000, 1000));
    state.apply_round(measured(15000, 1500));
    let resolutions: Vec<u64> = state.records.iter().map(|r| r.resolution_ticks).collect();
    assert_eq!(resolutions, vec![5000, 6000, 7000]);
}

#[test]
fn missing_dependencies_are_named_all_at_once() {
    assert_eq!(missing_dependencies(&vec![true, false, true, false]), vec![1, 3]);
    assert_eq!(missing_dependencies(&vec![true, true]), Vec::<usize>::new());
    assert_eq!(missing_dependencies(&vec![false]), vec![0]);
    assert_eq!(missing_dependencies(&Vec::new()), Vec::<usize>::new());
}
