//! The error type for a send operation.

use vstd::prelude::*;
use vstd::string::StringExecFns;

verus! {

/// The failure of one send operation. Exactly one of success or failure is
/// produced per send; a failed send never panics and never poisons the
/// client.
#[derive(Debug)]
pub enum Error {
    /// The request never completed: connectivity, DNS, TLS or timeout
    /// failure, carrying the transport's description of it.
    Transport(String),
    /// The service responded with a non-success status; carries the raw
    /// response body, verbatim.
    Service(String),
    /// The service responded with a success status, but the body was not
    /// the expected success document; carries the raw body, verbatim.
    Decode(String),
}

impl Error {
    /// A human-readable description of the failure.
    pub fn message(&self) -> (m: String)
        ensures
            (match self {
                Error::Transport(d) => m@ == d@,
                Error::Service(d) => m@ == "Resend Error: "@ + d@,
                Error::Decode(d) => m@ == "Decode Error: "@ + d@,
            }),
    {
        match self {
            Error::Transport(d) => d.clone(),
            Error::Service(d) => {
                let mut m = String::new();
                m.append("Resend Error: ");
                m.append(d.as_str());
                proof {
                    assert(m@ =~= "Resend Error: "@ + d@);
                }
                m
            },
            Error::Decode(d) => {
                let mut m = String::new();
                m.append("Decode Error: ");
                m.append(d.as_str());
                proof {
                    assert(m@ =~= "Decode Error: "@ + d@);
                }
                m
            },
        }
    }
}

} // verus!
