//! Error taxonomy of the verified core. Network, filesystem and encoding
//! failures belong to the I/O layer around the library and are not here.
use vstd::prelude::*;

verus! {

/// A parse failure: either the remote document is malformed (a required
/// field is missing or empty), or the decoded cache is corrupt.
#[derive(Debug, Clone, Copy, PartialEq, Eq, Structural)]
pub enum ParseError {
    Document,
    Cache,
}

impl ParseError {
    /// A human-readable description, for the process boundary to print.
    pub fn describe(&self) -> (r: &'static str)
        ensures
            *self is Document ==> r@ == "malformed dictionary document"@,
            *self is Cache ==> r@ == "corrupt decoded cache"@,
    {
        match self {
            ParseError::Document => "malformed dictionary document",
            ParseError::Cache => "corrupt decoded cache",
        }
    }
}

/// Lookup found no matching word. This is the only query-path failure.
#[derive(Debug, Clone, Copy, PartialEq, Eq, Structural)]
pub struct NotFound;

} // verus!
