//! The failures that the library reports, by class.

use vstd::prelude::*;

verus! {

/// Why an operation failed.
#[derive(Debug)]
pub enum MigrateError {
    /// The dump or restore binary could not be executed.
    ToolingUnavailable,
    /// The external tool ran and failed; its diagnostic text, unmodified.
    ExternalToolFailure(String),
    /// A remote interface answered outside 2xx: the action, the status and the body.
    RemoteApiFailure { action: String, status: u16, body: String },
    /// A gating check reported that a feature is not active.
    FeatureUnavailable(String),
    /// Replaying a schema on the target failed; the client's diagnostic text.
    ApplyFailure(String),
    /// The request was inconsistent; nothing was started.
    Validation(String),
    /// A vault query failed or gave an answer that cannot be used.
    Vault(String),
}

} // verus!
