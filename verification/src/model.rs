//! The seam record: the description of one boundary between two components.
//!
//! The service-level objective of a record (its latency and error-rate
//! targets) is not part of this model: no rule of the library reads it,
//! and its error rate is a floating-point number.
use vstd::prelude::*;

verus! {

/// One seam record.
#[derive(Debug)]
pub struct SeamRecord {
    pub id: String,
    pub title: String,
    pub status: String,
    pub owners: Vec<Owner>,
    pub side_a: String,
    pub side_b: String,
    pub boundary_type: String,
    pub data_flows: Vec<DataFlow>,
    pub contract_artifacts: Vec<ContractArtifact>,
    pub compat_policy: CompatPolicy,
    pub semantic_invariants: Vec<String>,
    pub security_invariants: Vec<String>,
    pub privacy_invariants: Vec<String>,
    pub test_vectors: Vec<String>,
    pub checks: Checks,
    pub failure_behavior: FailureBehavior,
    pub observability: Observability,
    pub change_process: ChangeProcess,
    pub rollout_backout: RolloutBackout,
}

/// Someone responsible for a seam.
#[derive(Debug)]
pub struct Owner {
    pub name: String,
    pub contact: String,
    pub role: String,
}

/// Data that crosses the seam.
#[derive(Debug)]
pub struct DataFlow {
    pub name: String,
    pub direction: String,
    pub description: String,
}

/// A file that pins down the seam's contract (a schema, an IDL, ...).
#[derive(Debug)]
pub struct ContractArtifact {
    pub path: String,
    pub kind: String,
    pub version: String,
}

/// How the seam may evolve.
#[derive(Debug)]
pub struct CompatPolicy {
    pub strategy: String,
    pub rules: Vec<String>,
    pub deprecation_window_days: i64,
}

/// The three review checks of a seam.
#[derive(Debug)]
pub struct Checks {
    pub conformance: CheckStatus,
    pub no_hidden_channels: CheckStatus,
    pub evolution: CheckStatus,
}

/// The state of one review check.
#[derive(Debug)]
pub struct CheckStatus {
    pub status: String,
    pub notes: String,
}

/// How each side behaves when the other fails.
#[derive(Debug)]
pub struct FailureBehavior {
    pub timeouts: String,
    pub retries: String,
    pub backpressure: String,
    pub idempotency: String,
}

/// What the seam exposes for monitoring.
#[derive(Debug)]
pub struct Observability {
    pub metrics: Vec<String>,
    pub logs: Logs,
    pub tracing: Tracing,
}

/// Log requirements.
#[derive(Debug)]
pub struct Logs {
    pub required_fields: Vec<String>,
}

/// Trace-context propagation.
#[derive(Debug)]
pub struct Tracing {
    pub propagation: Vec<String>,
}

/// Who must approve a change and which gates it passes.
#[derive(Debug)]
pub struct ChangeProcess {
    pub required_reviewers: Vec<String>,
    pub gates: Vec<String>,
}

/// How a change is rolled out and backed out.
#[derive(Debug)]
pub struct RolloutBackout {
    pub rollout_steps: Vec<String>,
    pub backout_steps: Vec<String>,
}

} // verus!
