//! What a data source reports about itself.

use vstd::prelude::*;

use crate::dataset::{Dataset, DatasetSpec};

verus! {

/// The outcome of a source health check.
#[derive(Debug, Clone, PartialEq)]
pub struct HealthReport {
    pub source: String,
    pub ok: bool,
    /// Probe latency (ms).
    pub latency_ms: Option<u64>,
    /// Failure reason.
    pub error: Option<String>,
}

/// The capabilities of one source adapter.
#[derive(Debug, Clone)]
pub struct SourceCapabilities {
    pub name: String,
    /// Supported datasets.
    pub datasets: Vec<Dataset>,
    /// Fetch specification of each dataset.
    pub specs: Vec<DatasetSpec>,
}

} // verus!
