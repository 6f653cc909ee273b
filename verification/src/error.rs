//! Error taxonomy of the aggregation engine.
//!
//! Only the conditions that the engine itself can produce live here; failures
//! of outside collaborators (network, persistence) are absorbed at the
//! collection boundary and never reach the engine as errors.

use vstd::prelude::*;

verus! {

/// An error produced by the aggregation engine.
#[derive(Debug, Clone)]
pub enum AggregatorError {
    /// The backing store could not be accessed.
    StorageError { reason: String },
    /// No publish event has resolved to a block hash yet; the caller retries
    /// on the next polling cycle.
    SourceNotReady,
    /// No internally produced trace has been observed yet.
    NoTracesYet,
}

impl AggregatorError {
    /// Human-readable description of the error.
    pub fn message(&self) -> (r: String)
        ensures
            self is StorageError ==> r@ =~= "Error while accessing storage, reason: "@
                + self->reason@,
            self is SourceNotReady ==> r@ == "Producer node not seen yet!"@,
            self is NoTracesYet ==> r@ == "Nodes have not produced any traces yet!"@,
    {
        match self {
            AggregatorError::StorageError { reason } => {
                let prefix: String = "Error while accessing storage, reason: ".to_owned();
                prefix.concat(reason.as_str())
            },
            AggregatorError::SourceNotReady => "Producer node not seen yet!".to_owned(),
            AggregatorError::NoTracesYet => "Nodes have not produced any traces yet!".to_owned(),
        }
    }
}

} // verus!
