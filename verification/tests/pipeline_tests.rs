//! The whole core data path in one piece: drive a sweep, persist each
//! recorded round to an in-memory log, read the log back and reduce it.

use timer_res_bench::measurement::parse_measurement_output;
use timer_res_bench::params::SweepParameters;
use timer_res_bench::reduce::select_optimal;
use timer_res_bench::store::{format_record, header_line, read_all};
use timer_res_bench::sweep::{RoundAction, RoundDisposition, RoundOutcome, SweepState, SweepStatus};

#[test]
fn sweep_persist_readback_reduce() {
    // start 0.5 ms, increment 0.1 ms, end 0.7 ms, 100 samples
    let params = SweepParameters::new(5000, 1000, 7000, 100).unwrap();
    let sampler_outputs: [&[u8]; 3] = [
        b"Avg: 2.0000\nSTDEV: 0.2000\n",
        b"Avg: 1.0000\nSTDEV: 0.1000\n",
        b"Avg: 1.5000\nSTDEV: 0.1500\n",
    ];

    let mut log = header_line();
    let mut state = SweepState::begin(params);
    let mut round = 0;
    while let RoundAction::Measure { samples, .. } = state.next_action() {
        assert_eq!(samples, 100);
        let outcome = match parse_measurement_output(sampler_outputs[round]) {
            Ok(sample) => RoundOutcome::Measured(sample),
            Err(e) => RoundOutcome::OutputUnparsable(e),
        };
        if let RoundDisposition::Recorded(rec) = state.apply_round(outcome) {
            log.extend(format_record(&rec));
        }
        round += 1;
    }
    assert_eq!(state.status, SweepStatus::Complete);
    assert_eq!(round, 3);

    let expected = String::from_utf8(log.clone()).unwrap();
    assert_eq!(
        expected,
        "RequestedResolutionMs,DeltaMs,StandardDeviation\n\
         0.5000,2.0000,0.2000\n\
         0.6000,1.0000,0.1000\n\
         0.7000,1.5000,0.1500\n"
    );

    let records = read_all(&log);
    assert_eq!(records, state.records);
    let best = select_optimal(&records).unwrap();
    assert_eq!(best.resolution_ticks, 6000);
    assert_eq!(best.delta_ticks, 10000);
    assert_eq!(best.stdev_ticks, 1000);
}

#[test]
fn sweep_with_missing_field_aborts_midway() {
    let params = SweepParameters::new(5000, 1000, 7000, 100).unwrap();
    let sampler_outputs: [&[u8]; 3] = [
        b"Avg: 2.0000\nSTDEV: 0.2000\n",
        b"Avg: 1.0000\n",
        b"Avg: 1.5000\nSTDEV: 0.1500\n",
    ];

    let mut log = header_line();
    let mut state = SweepState::begin(params);
    let mut rounds_run = 0;
    while let RoundAction::Measure { .. } = state.next_action() {
        let outcome = match parse_measurement_output(sampler_outputs[rounds_run]) {
            Ok(sample) => RoundOutcome::Measured(sample),
            Err(e) => RoundOutcome::OutputUnparsable(e),
        };
        if let RoundDisposition::Recorded(rec) = state.apply_round(outcome) {
            log.extend(format_record(&rec));
        }
        rounds_run += 1;
    }
    assert_eq!(rounds_run, 2);
    assert_eq!(state.status, SweepStatus::Aborted);

    // the log still holds every round recorded before the abort
    let records = read_all(&log);
    assert_eq!(records.len(), 1);
    assert_eq!(records[0].resolution_ticks, 5000);
}
