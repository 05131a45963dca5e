//! The error kinds that the library's operations can report.

use vstd::prelude::*;

verus! {

/// A fatal condition raised by one of the record operations. No error
/// is ever recovered or retried: each aborts its whole operation.
///
/// - `Format`: a row of delimited input could not be parsed.
/// - `Index`: a column index lies beyond a record's width.
/// - `NoCodeFound`: entity-name resolution returned no row.
///
/// Failures of the file system or of the relational store arise in the
/// host layer that owns those resources, and are reported there.
#[derive(Clone, Copy, Debug, PartialEq, Eq, Structural)]
pub enum OpError {
    Format,
    Index,
    NoCodeFound,
}

} // verus!
