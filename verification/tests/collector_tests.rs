use taran::{DurationNanos, SimpleCollector, StepResult, TestRunner};
use taran::scenario::{Scenario, ScenarioInfo, LoadProfile};
use taran::duration::HumanDuration;

#[test]
fn test_collector_basic() {
    let mut collector = SimpleCollector::new();
    collector.record_success("test_step", DurationNanos::from_millis(100), 1024, 2048);

    let summary = collector.summary();
    assert_eq!(summary.total_requests, 1);
    assert_eq!(summary.successful_requests, 1);
    assert_eq!(summary.failed_requests, 0);
}

#[test]
fn test_collector_percentiles() {
    let mut collector = SimpleCollector::new();
    for i in 0..100 {
        collector.record_success("test", DurationNanos::from_millis(i), 0, 0);
    }

    let summary = collector.summary();
    assert!(summary.p50_latency_ms >= 45 && summary.p50_latency_ms <= 55);
    assert!(summary.p95_latency_ms >= 90);
}

#[test]
fn percentiles_are_ordered_and_idempotent() {
    let mut collector = SimpleCollector::new();
    for latency in [3u64, 9, 1, 14, 7, 2, 30, 5, 5, 21] {
        collector.record_success("step", DurationNanos::from_millis(latency), 0, 0);
    }
    collector.record_failure("step", "boom", DurationNanos::from_millis(8));
    let first = collector.summary();
    let second = collector.summary();
    assert_eq!(first.errors_by_type, second.errors_by_type);
    assert!(first.p50_latency_ms <= first.p95_latency_ms);
    assert!(first.p95_latency_ms <= first.p99_latency_ms);
    assert!(first.p99_latency_ms <= first.max_latency_ms);
    assert_eq!(first.p50_latency_ms, second.p50_latency_ms);
    assert_eq!(first.p95_latency_ms, second.p95_latency_ms);
    assert_eq!(first.p99_latency_ms, second.p99_latency_ms);
    assert_eq!(first.max_latency_ms, second.max_latency_ms);
}

#[test]
fn uniform_successes_round_trip() {
    let n = 17u64;
    let latency = 42u64;
    let mut collector = SimpleCollector::new();
    for _ in 0..n {
        collector.record_success("step", DurationNanos::from_millis(latency), 0, 0);
    }
    let summary = collector.summary();
    assert_eq!(summary.total_requests, n);
    assert_eq!(summary.successful_requests, n);
    assert_eq!(summary.failed_requests, 0);
    assert_eq!(summary.avg_latency_ms, latency);
    assert_eq!(summary.min_latency_ms, latency);
    assert_eq!(summary.max_latency_ms, latency);
    assert_eq!(summary.total_bytes_sent, 0);
    assert_eq!(summary.total_bytes_received, 0);
}

#[test]
fn fresh_collector_is_all_zero() {
    let collector = SimpleCollector::new();
    let summary = collector.summary();
    assert_eq!(summary.total_requests, 0);
    assert_eq!(summary.successful_requests, 0);
    assert_eq!(summary.failed_requests, 0);
    assert_eq!(summary.success_rate, 0);
    assert_eq!(summary.avg_latency_ms, 0);
    assert_eq!(summary.min_latency_ms, 0);
    assert_eq!(summary.max_latency_ms, 0);
    assert_eq!(summary.p50_latency_ms, 0);
    assert_eq!(summary.p95_latency_ms, 0);
    assert_eq!(summary.p99_latency_ms, 0);
    assert!(summary.errors_by_type.is_empty());
}

#[test]
fn reset_returns_to_zero() {
    let mut collector = SimpleCollector::new();
    collector.record_success("a", DurationNanos::from_millis(10), 5, 6);
    collector.record_failure("a", "boom", DurationNanos::from_millis(20));
    collector.reset();
    let summary = collector.summary();
    assert_eq!(summary.total_requests, 0);
    assert_eq!(summary.failed_requests, 0);
    assert!(summary.errors_by_type.is_empty());
}

#[test]
fn failures_build_an_error_histogram() {
    let mut collector = SimpleCollector::new();
    collector.record_failure("a", "timeout", DurationNanos::from_millis(5));
    collector.record_failure("a", "timeout", DurationNanos::from_millis(6));
    collector.record_failure("a", "refused", DurationNanos::from_millis(7));
    let summary = collector.summary();
    assert_eq!(summary.total_requests, 3);
    assert_eq!(summary.failed_requests, 3);
    assert_eq!(summary.successful_requests, 0);
    // The histogram lists each recorded description once, in first-occurrence
    // order, with its exact count; nothing with a zero count appears.
    assert_eq!(summary.errors_by_type.len(), 2);
    assert_eq!(summary.errors_by_type[0].0, "timeout");
    assert_eq!(summary.errors_by_type[0].1, 2);
    assert_eq!(summary.errors_by_type[1].0, "refused");
    assert_eq!(summary.errors_by_type[1].1, 1);
}

#[test]
fn success_rate_is_a_whole_percentage() {
    let mut collector = SimpleCollector::new();
    collector.record_success("a", DurationNanos::from_millis(1), 0, 0);
    collector.record_success("a", DurationNanos::from_millis(1), 0, 0);
    collector.record_success("a", DurationNanos::from_millis(1), 0, 0);
    collector.record_failure("a", "boom", DurationNanos::from_millis(1));
    let summary = collector.summary();
    assert_eq!(summary.success_rate, 75);
}

#[test]
fn snapshot_tracks_counters() {
    let mut collector = SimpleCollector::new();
    collector.record_success("a", DurationNanos::from_millis(30), 0, 0);
    collector.record_failure("a", "boom", DurationNanos::from_millis(12));
    let snap = collector.snapshot();
    assert_eq!(snap.total_requests, 2);
    assert_eq!(snap.successful_requests, 1);
    assert_eq!(snap.failed_requests, 1);
    assert_eq!(snap.total_duration_ms, 42);
}

fn trivial_scenario() -> Scenario {
    Scenario {
        scenario: ScenarioInfo { name: String::from("busy second"), description: None },
        load_profile: LoadProfile::Constant {
            users: 5,
            duration: HumanDuration(DurationNanos::from_secs(1)),
            ramp_up: None,
        },
        steps: Vec::new(),
    }
}

#[test]
fn always_succeeding_steps_leave_no_failures() {
    // Five simulated virtual users, each completing iterations of one
    // always-succeeding step within the window.
    let mut runner = TestRunner::new(trivial_scenario());
    let mut attempted = 0u64;
    for _vu in 0..5 {
        for _iteration in 0..20 {
            let result = StepResult {
                step_name: String::from("ping"),
                success: true,
                duration: DurationNanos::from_millis(3),
                error: None,
                status_code: Some(200),
                bytes_sent: 64,
                bytes_received: 128,
            };
            runner.record_result(&result);
            attempted += 1;
        }
    }
    let summary = runner.collector.summary();
    assert_eq!(summary.failed_requests, 0);
    assert_eq!(summary.total_requests, attempted);
    assert_eq!(summary.successful_requests, attempted);
}

#[test]
fn failed_results_are_recorded_with_their_error() {
    let mut runner = TestRunner::new(trivial_scenario());
    let result = StepResult {
        step_name: String::from("ping"),
        success: false,
        duration: DurationNanos::from_millis(3),
        error: None,
        status_code: None,
        bytes_sent: 0,
        bytes_received: 0,
    };
    runner.record_result(&result);
    let summary = runner.collector.summary();
    assert_eq!(summary.failed_requests, 1);
    assert_eq!(summary.errors_by_type.len(), 1);
    assert_eq!(summary.errors_by_type[0].0, "Unknown error");
    assert_eq!(summary.errors_by_type[0].1, 1);
}
