//! Error types of the engine's components. Each variant carries a plain
//! description; transport- and parser-level causes arrive already rendered
//! as text.

use vstd::prelude::*;

verus! {

/// Errors of scenario configuration and validation.
#[derive(Clone, Debug)]
pub enum ConfigError {
    /// The scenario file could not be read.
    FileRead(String),
    /// The scenario text could not be parsed.
    TomlParse(String),
    /// The scenario is structurally unacceptable.
    InvalidScenario(String),
    /// A required field is empty or absent.
    MissingField(String),
    /// A duration field could not be parsed.
    InvalidDuration(String),
}

/// Errors of the execution engine.
#[derive(Clone, Debug)]
pub enum CoreError {
    ExecutionFailed(String),
    VirtualUserError(String),
    ProtocolError(crate::errors::ProtocolError),
    ConfigError(crate::errors::ConfigError),
    MetricsError(crate::errors::MetricsError),
    RuntimeError(String),
}

/// Errors of the metrics aggregator.
#[derive(Clone, Debug)]
pub enum MetricsError {
    RecordFailed(String),
    AggregationFailed(String),
    InvalidValue(String),
    HistogramError(String),
}

/// Errors of a protocol executor.
#[derive(Clone, Debug)]
pub enum ProtocolError {
    /// The request was sent but failed underway.
    HttpRequestFailed(String),
    /// No connection could be made.
    ConnectionError(String),
    /// The request ran out of time.
    Timeout(String),
    /// The response, or the request definition, is unusable.
    InvalidResponse(String),
    /// Any other transport-library failure, already rendered as text.
    Transport(String),
}

/// Errors of the scripting subsystem.
#[derive(Clone, Debug)]
pub enum ScriptError {
    ExecutionFailed(String),
    ParseError(String),
    RuntimeError(String),
}

} // verus!
