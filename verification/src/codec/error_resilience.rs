use vstd::prelude::*;

verus! {

/// Policy for handling corrupt or missing data during decoding.
#[derive(Debug, Clone, Copy, PartialEq, Eq, Structural)]
pub enum ErrorPolicy {
    /// Return an error immediately on corrupt data.
    Fail,
    /// Skip the corrupt unit and continue with the next one.
    Skip,
    /// Attempt to conceal the error (e.g. repeat previous frame).
    Conceal,
}

impl Default for ErrorPolicy {
    /// Failing is the default.
    fn default() -> (r: Self)
        ensures r == ErrorPolicy::Fail,
    {
        ErrorPolicy::Fail
    }
}

} // verus!
