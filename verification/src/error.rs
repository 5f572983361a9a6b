use vstd::prelude::*;

verus! {

/// The error taxonomy of the library.
///
/// - `Db` carries the rendered message of a failure of the underlying
///   database engine; the kind is preserved, the payload is its report.
/// - `InvalidDate` reports a date expression that could not be resolved,
///   together with the offending (trimmed) input.
/// - `OutOfRange` reports a date step or construction that would leave the
///   representable calendar range.
/// - `UnknownCommand` reports an unrecognised command verb.
/// - `InvalidData` reports malformed data coming from storage or exchange
///   payloads, together with the offending literal.
/// - `Conflict` reports the first conflicting date (in canonical form) of a
///   strict bulk import.
/// - `Unsupported` reports a deliberately unimplemented operation.
#[derive(Debug, PartialEq, Eq)]
pub enum Error {
    Db(String),
    InvalidDate(String),
    OutOfRange,
    UnknownCommand(String),
    InvalidData(String),
    Conflict(String),
    Unsupported,
}

} // verus!
