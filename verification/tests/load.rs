use armature_testing::load::{
    merge_worker_results, request_outcome, LoadTestConfig, LoadTestRunner, LoadTestStats, StressTestRunner,
    WorkerRun,
};
use std::time::Duration;

fn nanos(ms: u64) -> u128 {
    Duration::from_millis(ms).as_nanos()
}

#[test]
fn test_load_test_stats() {
    let response_times = vec![nanos(100), nanos(200), nanos(150), nanos(300), nanos(250)];

    let stats =
        LoadTestStats::from_response_times(&response_times, 0, Duration::from_secs(1).as_nanos());

    assert_eq!(stats.total_requests, 5);
    assert_eq!(stats.successful, 5);
    assert_eq!(stats.failed, 0);
    assert_eq!(stats.min_response_time, nanos(100));
    assert_eq!(stats.max_response_time, nanos(300));
}

#[test]
fn stats_quantiles_use_nearest_rank() {
    let response_times = vec![nanos(100), nanos(200), nanos(150), nanos(300), nanos(250)];
    let stats = LoadTestStats::from_response_times(&response_times, 2, nanos(1000));
    assert_eq!(stats.total_requests, 7);
    assert_eq!(stats.failed, 2);
    assert_eq!(stats.avg_response_time, nanos(200));
    assert_eq!(stats.median_response_time, nanos(200));
    assert_eq!(stats.p95_response_time, nanos(300));
    assert_eq!(stats.p99_response_time, nanos(300));
    assert_eq!(stats.duration, nanos(1000));
}

#[test]
fn stats_over_one_hundred_samples() {
    let response_times: Vec<u128> = (1..=100u64).rev().map(nanos).collect();
    let stats = LoadTestStats::from_response_times(&response_times, 0, nanos(10));
    assert_eq!(stats.min_response_time, nanos(1));
    assert_eq!(stats.median_response_time, nanos(50));
    assert_eq!(stats.p95_response_time, nanos(95));
    assert_eq!(stats.p99_response_time, nanos(99));
    assert_eq!(stats.max_response_time, nanos(100));
}

#[test]
fn stats_without_samples_are_zero() {
    let stats = LoadTestStats::from_response_times(&[], 3, nanos(5));
    assert_eq!(stats.total_requests, 3);
    assert_eq!(stats.successful, 0);
    assert_eq!(stats.min_response_time, 0);
    assert_eq!(stats.max_response_time, 0);
    assert_eq!(stats.avg_response_time, 0);
    assert_eq!(stats.median_response_time, 0);
}

#[test]
fn average_truncates_like_duration_division() {
    let stats = LoadTestStats::from_response_times(&[1, 2], 0, 0);
    assert_eq!(stats.avg_response_time, 1);
}

#[test]
fn worker_quotas_cover_every_request() {
    let config = LoadTestConfig::new(3, 100);
    let quotas: Vec<u64> = (0..3).map(|i| config.requests_for_worker(i).unwrap()).collect();
    assert_eq!(quotas, vec![34, 33, 33]);
    assert_eq!(quotas.iter().sum::<u64>(), 100);

    let many = LoadTestConfig::new(8, 3);
    let quotas: Vec<u64> = (0..8).map(|i| many.requests_for_worker(i).unwrap()).collect();
    assert_eq!(quotas, vec![1, 1, 1, 0, 0, 0, 0, 0]);
}

#[test]
fn duration_bound_runs_have_no_quota() {
    let config = LoadTestConfig::new(2, 10).with_duration(nanos(50));
    assert_eq!(config.requests_for_worker(0), None);
    let run = WorkerRun::new(&config, 0);
    assert!(!run.should_stop(nanos(10)));
    assert!(run.should_stop(nanos(50)));
}

#[test]
fn config_defaults() {
    let config = LoadTestConfig::default();
    assert_eq!(config.concurrency, 10);
    assert_eq!(config.total_requests, 100);
    assert_eq!(config.duration, None);
    assert_eq!(config.timeout, Duration::from_secs(30).as_nanos());
    let config = LoadTestConfig::new(10, 100).with_timeout(Duration::from_secs(5).as_nanos());
    assert_eq!(config.timeout, Duration::from_secs(5).as_nanos());
}

#[test]
fn worker_records_successes_and_failures_until_quota() {
    let config = LoadTestConfig::new(2, 3);
    let mut run = WorkerRun::new(&config, 0);
    assert_eq!(run.quota, Some(2));
    assert!(!run.should_stop(0));
    run.record(Some(nanos(5)));
    assert!(!run.should_stop(0));
    run.record(None);
    assert!(run.should_stop(0));
    assert_eq!(run.request_count, 2);
    assert_eq!(run.times, vec![nanos(5)]);
    assert_eq!(run.failed, 1);
}

#[test]
fn merging_worker_results_skips_unfinished_workers() {
    let merged = merge_worker_results(vec![
        Some((vec![1, 2], 1)),
        None,
        Some((vec![3], 2)),
    ]);
    assert_eq!(merged.0, vec![1, 2, 3]);
    assert_eq!(merged.1, 3);
}

#[test]
fn runner_keeps_config() {
    let runner = LoadTestRunner::new(LoadTestConfig::new(4, 40), 7u8);
    assert_eq!(runner.get_config().concurrency, 4);
    assert_eq!(**runner.get_test_fn(), 7u8);
}

#[test]
fn stress_levels_step_up_to_the_maximum() {
    let runner = StressTestRunner::new(10, 35, 10, nanos(100), ());
    assert_eq!(runner.concurrency_levels(), vec![10, 20, 30]);
    let step = runner.step_config(20);
    assert_eq!(step.concurrency, 20);
    assert_eq!(step.duration, Some(nanos(100)));
    assert_eq!(step.total_requests, u64::MAX);
    let none = StressTestRunner::new(5, 4, 0, 1, ());
    assert!(none.concurrency_levels().is_empty());
}

#[test]
fn pacing_pauses_for_the_rest_of_the_interval() {
    let config = LoadTestConfig::new(1, 3);
    let mut run = WorkerRun::new(&config, 0);
    run.record(Some(10));
    assert_eq!(run.pause_after(0, 30, Some(100)), Some(70));
    assert_eq!(run.pause_after(0, 100, Some(100)), None);
    assert_eq!(run.pause_after(0, 30, None), None);
    run.record(Some(10));
    run.record(Some(10));
    assert_eq!(run.pause_after(0, 30, Some(100)), None);
}

#[test]
fn stress_levels_are_refused_when_they_would_not_end() {
    let zero_step = StressTestRunner::new(1, 4, 0, 1, ());
    assert!(zero_step.try_concurrency_levels().is_none());
    let overflowing = StressTestRunner::new(usize::MAX - 1, usize::MAX, 5, 1, ());
    assert!(overflowing.try_concurrency_levels().is_none());
    let fine = StressTestRunner::new(1, 7, 3, 9, ());
    assert_eq!(fine.try_concurrency_levels(), Some(vec![1, 4, 7]));
    assert_eq!(fine.get_initial_concurrency(), 1);
    assert_eq!(fine.get_max_concurrency(), 7);
    assert_eq!(fine.get_step_size(), 3);
    assert_eq!(fine.get_step_duration(), 9);
}

#[test]
fn request_outcomes_classify_errors_and_timeouts_as_failures() {
    assert_eq!(request_outcome(true, true, 7), Some(7));
    assert_eq!(request_outcome(true, false, 7), None);
    assert_eq!(request_outcome(false, false, 7), None);
}

#[test]
fn stress_levels_step_one_at_a_time() {
    let runner = StressTestRunner::new(1, 5, 2, 1, ());
    assert!(runner.runs_level(5));
    assert!(!runner.runs_level(6));
    assert_eq!(runner.level_after(3), Some(5));
    let big = StressTestRunner::new(1, usize::MAX, 2, 1, ());
    assert_eq!(big.level_after(usize::MAX - 1), None);
}
