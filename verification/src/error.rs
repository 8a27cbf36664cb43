//! Failures surfaced while building the host range database.

use vstd::prelude::*;

verus! {

/// Why building the database (or parsing its configuration) failed.
///
/// Building is all-or-nothing: any of these aborts the whole construction,
/// and no partial database is exposed.
#[derive(Debug, PartialEq, Eq)]
pub enum HostError {
    /// A source document is not well-formed JSON. Carries the source path.
    ParseError { path: String },
    /// A source document is well-formed JSON but the descriptor's pointer
    /// does not resolve to an array within it. Carries the source path.
    InvalidFormat { path: String },
    /// A range field is present but is not valid IPv4 CIDR notation.
    /// Carries the offending text.
    InvalidCidr { cidr: String },
    /// A configuration row does not have exactly four comma-separated
    /// fields. Carries the raw row and the field count found.
    InvalidRow { row: String, found: usize },
}

} // verus!
