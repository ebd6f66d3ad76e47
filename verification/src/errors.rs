//! The error taxonomy: malformed client input, an undecodable write
//! payload, and a failing persistence layer.

use vstd::prelude::*;

verus! {

/// Malformed or unparseable client input: carries the offending key and
/// the parse failure reason. Always recoverable, reported as a client
/// error.
#[derive(Debug)]
pub struct ValidationError {
    pub key: String,
    pub reason: String,
}

impl ValidationError {
    /// The text reported to the client: `key: reason`.
    pub fn message(&self) -> (r: String)
        ensures
            r@ == self.key@ + ": "@ + self.reason@,
    {
        let head = self.key.clone();
        let mid = head.concat(": ");
        mid.concat(self.reason.as_str())
    }
}

/// A write payload that cannot be decoded into the expected shape.
#[derive(Debug)]
pub struct MalformedPayloadError {
    pub detail: String,
}

/// The storage layer is unreachable or rejected an operation. Reported as
/// a server error, never retried.
#[derive(Debug)]
pub struct PersistenceError {
    pub detail: String,
}

} // verus!
