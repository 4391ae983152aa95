use vstd::prelude::*;

verus! {

/// The error taxonomy of the runner core.
///
/// * `VariableError` — a substitution referenced an undefined variable, or a
///   substituted value could not be coerced to the shape its context needs.
///   Fatal to the single step only.
/// * `TransportError` — the HTTP collaborator failed (connection, timeout,
///   protocol). Fatal to the single step only.
/// * `SuiteLoadError` — a suite document was malformed; the suite is skipped.
///
/// A comparison mismatch is *not* an error: it is a normal test outcome and
/// is reported through `MatchResult`, never through this type.
#[derive(Debug, Clone, PartialEq, Eq)]
pub enum CaptiError {
    VariableError(String),
    TransportError(String),
    SuiteLoadError(String),
}

impl CaptiError {
    /// A human-readable description of the error, for reports.
    pub fn message(&self) -> (r: &String)
        ensures
            r@ == self.spec_message(),
    {
        match self {
            CaptiError::VariableError(m) => m,
            CaptiError::TransportError(m) => m,
            CaptiError::SuiteLoadError(m) => m,
        }
    }

    pub open spec fn spec_message(self) -> Seq<char> {
        match self {
            CaptiError::VariableError(m) => m@,
            CaptiError::TransportError(m) => m@,
            CaptiError::SuiteLoadError(m) => m@,
        }
    }
}

} // verus!
