//! Diagnostics of the running system.

use vstd::prelude::*;

verus! {

/// A failure of collecting diagnostics, with its description.
#[derive(Debug)]
pub struct DiagnosticsError {
    details: String,
}

impl View for DiagnosticsError {
    type V = Seq<char>;

    closed spec fn view(&self) -> Seq<char> {
        self.details@
    }
}

impl DiagnosticsError {
    /// A failure described by `details`.
    pub fn new(details: &str) -> (e: Self)
        ensures
            e@ == details@,
    {
        DiagnosticsError { details: String::from_str(details) }
    }

    /// The description.
    pub fn message(&self) -> (s: String)
        ensures
            s@ == self@,
    {
        self.details.clone()
    }
}

/// Collects diagnostics. There is nothing to collect, so it succeeds.
pub fn collect_diagnostics() -> (r: Result<(), DiagnosticsError>)
    ensures
        r is Ok,
{
    Ok(())
}

} // verus!
