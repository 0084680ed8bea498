//! The success notice for a send operation.

use vstd::prelude::*;

verus! {

/// The kinds of successful outcome of an email operation.
#[derive(Debug, PartialEq, Eq, Structural, Clone, Copy)]
pub enum Success {
    /// The email was accepted by the service.
    EmailSent,
}

impl Success {
    /// The human-readable confirmation notice for this outcome.
    pub fn message(&self) -> (m: &'static str)
        ensures
            m@ == "Email was successfully sent"@,
    {
        "Email was successfully sent"
    }
}

} // verus!
