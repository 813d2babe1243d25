//! Error taxonomy of the resolution and probe pipeline.

use vstd::prelude::*;

verus! {

/// Why resolving the host address failed.
///
/// Resolution errors are structural or configuration problems: they are
/// surfaced immediately and never retried.
#[derive(Clone, Copy, Debug, PartialEq, Eq, Structural)]
pub enum ResolveError {
    /// The resolver configuration file could not be read.
    ReadError,
    /// Input was not valid text, or not the expected structured format.
    DecodeError,
    /// An extracted token was not a syntactically valid IP address.
    ParseError,
    /// No candidate address was present in the input.
    NotFound,
    /// A route record failed a sanity check.
    ValidationError,
    /// The external route query could not be run, or exited with failure.
    ExecError,
}

/// The classified result of probing the display port.
#[derive(Debug)]
pub enum ProbeOutcome {
    /// A TCP connection to the target port completed.
    Reachable,
    /// Every attempt was refused or timed out: no server is listening.
    /// This is a normal negative result, not a failure.
    Unreachable,
    /// A hard fault that retries cannot fix; the detail describes it.
    Error(String),
}

} // verus!
