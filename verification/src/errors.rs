//! Failure taxonomy of the update subsystem.

use vstd::prelude::*;

verus! {

/// Every failure a caller can observe from this subsystem.
///
/// Transport failures, malformed server answers, digest mismatches,
/// missing backups, local filesystem trouble, the concurrency guard,
/// and corrupt persisted configuration each get their own variant, so
/// callers can react to exactly the failure they were handed.
#[derive(Debug)]
pub enum UpdateError {
    /// Transport failure or timeout while talking to the update server.
    NetworkError(String),
    /// The server answered, but not with what the protocol promises.
    ProtocolError(String),
    /// A downloaded payload's digest does not match its manifest hash.
    IntegrityError(String),
    /// A named backup (or file) does not exist.
    NotFound(String),
    /// A local filesystem operation failed.
    IoError(String),
    /// Another update attempt is already in flight.
    AlreadyInProgress,
    /// A persisted configuration document does not parse.
    ConfigParseError(String),
}

impl UpdateError {
    /// A short, stable text for the failure, for logs and user messages.
    pub fn message(&self) -> (r: String)
        ensures
            self matches UpdateError::NetworkError(d) ==> r@ == "network error"@ + ": "@ + d@,
            self matches UpdateError::ProtocolError(d) ==> r@ == "protocol error"@ + ": "@ + d@,
            self matches UpdateError::IntegrityError(d) ==> r@ == "integrity error"@ + ": "@ + d@,
            self matches UpdateError::NotFound(d) ==> r@ == "not found"@ + ": "@ + d@,
            self matches UpdateError::IoError(d) ==> r@ == "io error"@ + ": "@ + d@,
            self is AlreadyInProgress ==> r@ == "update already in progress"@,
            self matches UpdateError::ConfigParseError(d) ==> r@ == "config parse error"@ + ": "@
                + d@,
    {
        match self {
            UpdateError::NetworkError(d) => join_detail("network error", d),
            UpdateError::ProtocolError(d) => join_detail("protocol error", d),
            UpdateError::IntegrityError(d) => join_detail("integrity error", d),
            UpdateError::NotFound(d) => join_detail("not found", d),
            UpdateError::IoError(d) => join_detail("io error", d),
            UpdateError::AlreadyInProgress => String::from_str("update already in progress"),
            UpdateError::ConfigParseError(d) => join_detail("config parse error", d),
        }
    }
}

/// `head`, a separating colon, then the detail text.
fn join_detail(head: &str, detail: &String) -> (r: String)
    ensures
        r@ == head@ + ": "@ + detail@,
{
    let mut r = String::from_str(head);
    r.append(": ");
    r.append(detail.as_str());
    r
}

} // verus!
