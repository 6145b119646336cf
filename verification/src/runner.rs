//! The execution engine's decision core: assertion checking, step-outcome
//! construction, result recording, and worker-pool reconciliation.
//!
//! The transport call itself and the timing loop live outside the library;
//! they hand in responses and transport errors as plain values and perform
//! the spawn/retire counts this module computes.

use crate::collector::{SampleSpec, SimpleCollector, spec_sum_latency};
use crate::http::HttpResponse;
use crate::model::{DurationNanos, StepResult, NANOS_PER_MILLI};
use crate::scenario::{Assertions, Scenario, Step};
use crate::strutil::{spec_contains, spec_decimal, contains_str, u64_to_string};
use vstd::prelude::*;

verus! {

/// The message reported when a status assertion is violated; it names both
/// the expected and the actual status code.
pub open spec fn spec_status_msg(expected: u16, actual: u16) -> Seq<char> {
    "Expected status "@ + spec_decimal(expected as nat) + ", got "@ + spec_decimal(actual as nat)
}

/// The message reported when a response took longer than allowed.
pub open spec fn spec_time_msg(actual_ms: u64, max_ms: u64) -> Seq<char> {
    "Response time "@ + spec_decimal(actual_ms as nat) + "ms exceeded max "@ + spec_decimal(
        max_ms as nat,
    ) + "ms"@
}

/// The message reported when the body lacks a required text.
pub open spec fn spec_body_msg(expected: Seq<char>) -> Seq<char> {
    "Response body does not contain '"@ + expected + "'"@
}

/// The first violated assertion's message, in the fixed order: status, then
/// response time, then body containment. None when every check passes.
pub open spec fn spec_check_assertions(a: Assertions, r: HttpResponse) -> Option<Seq<char>> {
    if a.status matches Some(expected) && r.status != expected {
        Some(spec_status_msg(a.status->0, r.status))
    } else if a.max_response_time matches Some(m) && r.duration.nanos > m.0.nanos {
        Some(
            spec_time_msg(
                (r.duration.nanos / NANOS_PER_MILLI) as u64,
                ((a.max_response_time->0).0.nanos / NANOS_PER_MILLI) as u64,
            ),
        )
    } else if a.body_contains matches Some(t) && !spec_contains(r.body@, t@) {
        Some(spec_body_msg(a.body_contains->0@))
    } else {
        None
    }
}

/// Evaluate a step's assertions against a response: the first violated
/// assertion's message wins and ends the checking.
pub fn check_assertions(assertions: &Assertions, response: &HttpResponse) -> (r: Option<String>)
    ensures
        match r {
            Some(m) => spec_check_assertions(*assertions, *response) == Some(m@),
            None => spec_check_assertions(*assertions, *response) is None,
        },
{
    match &assertions.status {
        Some(expected) => {
            if response.status != *expected {
                let mut m = lit_string("Expected status ");
                m.append(u64_to_string(*expected as u64).as_str());
                m.append(", got ");
                m.append(u64_to_string(response.status as u64).as_str());
                proof {
                    assert(m@ =~= spec_status_msg(*expected, response.status));
                }
                return Some(m);
            }
        },
        None => {},
    }
    match &assertions.max_response_time {
        Some(max_time) => {
            if response.duration.nanos > max_time.0.nanos {
                let actual_ms = response.duration.as_millis();
                let max_ms = max_time.0.as_millis();
                let mut m = lit_string("Response time ");
                m.append(u64_to_string(actual_ms).as_str());
                m.append("ms exceeded max ");
                m.append(u64_to_string(max_ms).as_str());
                m.append("ms");
                proof {
                    assert(m@ =~= spec_time_msg(actual_ms, max_ms));
                }
                return Some(m);
            }
        },
        None => {},
    }
    match &assertions.body_contains {
        Some(expected_text) => {
            if !contains_str(response.body.as_str(), expected_text.as_str()) {
                let mut m = lit_string("Response body does not contain '");
                m.append(expected_text.as_str());
                m.append("'");
                proof {
                    assert(m@ =~= spec_body_msg(expected_text@));
                }
                return Some(m);
            }
        },
        None => {},
    }
    None
}

/// A literal as an owned string.
fn lit_string(s: &str) -> (r: String)
    ensures
        r@ == s@,
{
    s.to_owned()
}

/// The step's assertion verdict, if it declares assertions.
pub open spec fn spec_assertion_error(step: Step, r: HttpResponse) -> Option<Seq<char>> {
    match step.assertions {
        Some(a) => spec_check_assertions(a, r),
        None => None,
    }
}

/// Build a step's final outcome from a response that arrived: the step
/// succeeds exactly when no assertion is violated — a non-2xx status alone is
/// not a failure, only the assertion stage decides one. The first violated
/// assertion's message becomes the error.
pub fn outcome_from_response(step: &Step, response: &HttpResponse) -> (r: StepResult)
    ensures
        r.step_name@ == step.name@,
        r.success == (spec_assertion_error(*step, *response) is None),
        match r.error {
            Some(m) => spec_assertion_error(*step, *response) == Some(m@),
            None => spec_assertion_error(*step, *response) is None,
        },
        r.status_code == Some(response.status),
        r.duration == response.duration,
        r.bytes_sent == response.bytes_sent,
        r.bytes_received == response.bytes_received,
{
    let assertion_error = match &step.assertions {
        Some(a) => check_assertions(a, response),
        None => None,
    };
    let is_ok = assertion_error.is_none();
    StepResult {
        step_name: step.name.clone(),
        success: is_ok,
        duration: response.duration,
        error: assertion_error,
        status_code: Some(response.status),
        bytes_sent: response.bytes_sent,
        bytes_received: response.bytes_received,
    }
}

/// The outcome of a step whose transport call failed outright: no status, no
/// bytes, and the transport's rendered error behind a fixed prefix.
pub fn transport_failure_outcome(step_name: &str, error: &str, duration: DurationNanos) -> (r:
    StepResult)
    ensures
        r.step_name@ == step_name@,
        !r.success,
        r.error matches Some(m) && m@ == "Request failed: "@ + error@,
        r.status_code is None,
        r.duration == duration,
        r.bytes_sent == 0,
        r.bytes_received == 0,
{
    let mut m = lit_string("Request failed: ");
    m.append(error);
    StepResult {
        step_name: step_name.to_owned(),
        success: false,
        duration,
        error: Some(m),
        status_code: None,
        bytes_sent: 0,
        bytes_received: 0,
    }
}

/// The outcome of a step whose transport could not even be set up.
pub fn client_failure_outcome(step_name: &str, error: &str, duration: DurationNanos) -> (r:
    StepResult)
    ensures
        r.step_name@ == step_name@,
        !r.success,
        r.error matches Some(m) && m@ == "Failed to create HTTP client: "@ + error@,
        r.status_code is None,
        r.duration == duration,
        r.bytes_sent == 0,
        r.bytes_received == 0,
{
    let mut m = lit_string("Failed to create HTTP client: ");
    m.append(error);
    StepResult {
        step_name: step_name.to_owned(),
        success: false,
        duration,
        error: Some(m),
        status_code: None,
        bytes_sent: 0,
        bytes_received: 0,
    }
}

/// The outcome of a step that names a protocol the engine does not speak.
pub fn unsupported_protocol_outcome(step_name: &str, protocol: &str, duration: DurationNanos) -> (
    r: StepResult)
    ensures
        r.step_name@ == step_name@,
        !r.success,
        r.error matches Some(m) && m@ == "Unsupported protocol: "@ + protocol@,
        r.status_code is None,
        r.duration == duration,
        r.bytes_sent == 0,
        r.bytes_received == 0,
{
    let mut m = lit_string("Unsupported protocol: ");
    m.append(protocol);
    StepResult {
        step_name: step_name.to_owned(),
        success: false,
        duration,
        error: Some(m),
        status_code: None,
        bytes_sent: 0,
        bytes_received: 0,
    }
}

/// How many workers to spawn and how many to retire to bring a live count to
/// a target: exactly the difference, in one direction only.
pub fn reconcile_counts(live: usize, target: usize) -> (r: (usize, usize))
    ensures
        r.0 == if target > live {
            target - live
        } else {
            0int
        },
        r.1 == if live > target {
            live - target
        } else {
            0int
        },
        live + r.0 - r.1 == target,
{
    if target > live {
        (target - live, 0)
    } else {
        (0, live - target)
    }
}

/// The sample the aggregator keeps for a finalized step result: successes
/// carry their byte counts, failures carry their error description (or a
/// fixed placeholder where none was recorded).
pub open spec fn spec_sample_of(r: StepResult) -> SampleSpec {
    if r.success {
        SampleSpec {
            success: true,
            latency_ms: (r.duration.nanos / NANOS_PER_MILLI) as u64,
            bytes_sent: r.bytes_sent,
            bytes_received: r.bytes_received,
            error: None,
            step: r.step_name@,
        }
    } else {
        SampleSpec {
            success: false,
            latency_ms: (r.duration.nanos / NANOS_PER_MILLI) as u64,
            bytes_sent: 0,
            bytes_received: 0,
            error: Some(
                match r.error {
                    Some(m) => m@,
                    None => "Unknown error"@,
                },
            ),
            step: r.step_name@,
        }
    }
}

/// The test runner: the immutable scenario and the aggregator it feeds.
pub struct TestRunner {
    pub scenario: Scenario,
    pub collector: SimpleCollector,
}

impl TestRunner {
    /// A runner for a scenario, with a fresh aggregator.
    pub fn new(scenario: Scenario) -> (r: TestRunner)
        ensures
            r.collector.wf(),
            r.collector@ == Seq::<SampleSpec>::empty(),
            r.scenario == scenario,
    {
        TestRunner { scenario, collector: SimpleCollector::new() }
    }

    /// Feed one finalized step result to the aggregator: a success with its
    /// latency and bytes, or a failure with its latency and error.
    pub fn record_result(&mut self, result: &StepResult)
        requires
            old(self).collector.wf(),
            old(self).collector@.len() < u64::MAX,
            old(self).collector@.len() < usize::MAX,
            crate::collector::spec_bytes_sent(old(self).collector@) + result.bytes_sent
                <= u64::MAX,
            crate::collector::spec_bytes_received(old(self).collector@) + result.bytes_received
                <= u64::MAX,
            spec_sum_latency(old(self).collector@) + result.duration.nanos / NANOS_PER_MILLI
                <= u64::MAX,
        ensures
            final(self).collector.wf(),
            final(self).collector@ == old(self).collector@.push(spec_sample_of(*result)),
            final(self).scenario == old(self).scenario,
    {
        if result.success {
            self.collector.record_success(
                result.step_name.as_str(),
                result.duration,
                result.bytes_sent,
                result.bytes_received,
            );
        } else {
            match &result.error {
                Some(m) => {
                    self.collector.record_failure(
                        result.step_name.as_str(),
                        m.as_str(),
                        result.duration,
                    );
                },
                None => {
                    self.collector.record_failure(
                        result.step_name.as_str(),
                        "Unknown error",
                        result.duration,
                    );
                },
            }
        }
    }
}

} // verus!
