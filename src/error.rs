use vstd::prelude::*;

verus! {

/// Failure of an outbound fetch.
#[derive(Debug)]
pub enum FetchError {
    /// Any outbound call failure, timeouts included.
    Network(String),
    /// Required configuration is missing or unparseable.
    InvalidConfig(String),
}

impl FetchError {
    /// A copy of this error.
    pub fn duplicate(&self) -> (r: FetchError)
        ensures
            match (self, r) {
                (FetchError::Network(a), FetchError::Network(b)) => a@ == b@,
                (FetchError::InvalidConfig(a), FetchError::InvalidConfig(b)) => a@ == b@,
                _ => false,
            },
    {
        match self {
            FetchError::Network(d) => FetchError::Network(d.clone()),
            FetchError::InvalidConfig(d) => FetchError::InvalidConfig(d.clone()),
        }
    }

    /// The error a timed-out call gives.
    pub fn timeout() -> (r: FetchError)
        ensures
            r is Network && r->Network_0@ == "timeout"@,
    {
        FetchError::Network(String::from_str("timeout"))
    }
}

} // verus!
