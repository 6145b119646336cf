//! A load-generation engine: a scenario (a sequence of request steps and a
//! target concurrency curve) drives simulated clients against a target
//! service, and the outcomes are aggregated into summary statistics.
//!
//! This crate holds the verified core: the load-profile scheduler, the
//! per-virtual-user state, the assertion and extraction pipeline, and the
//! metrics aggregator. The network transport, the scenario file loader and
//! the console reporting live outside it.

pub mod collector;
pub mod duration;
pub mod errors;
pub mod extract;
pub mod http;
pub mod model;
pub mod profile;
pub mod runner;
pub mod scenario;
pub mod strutil;

pub use collector::{MetricsSnapshot, MetricsSummary, SimpleCollector};
pub use duration::{format_duration, parse_duration, HumanDuration};
pub use errors::{ConfigError, CoreError, MetricsError, ProtocolError, ScriptError};
pub use extract::{apply_extractor, render_template, run_extractors};
pub use http::{estimate_request_size, parse_method, HttpMethod, HttpRequest, HttpResponse};
pub use model::{DurationNanos, Iteration, StepResult, VirtualUserContext, VirtualUserId};
pub use runner::{
    check_assertions, client_failure_outcome, outcome_from_response, reconcile_counts,
    transport_failure_outcome, unsupported_protocol_outcome, TestRunner,
};
pub use scenario::{
    Assertions, Extractor, LoadProfile, LoadStep, Scenario, ScenarioInfo, Step,
};
