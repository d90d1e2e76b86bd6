//! The failures the library's operations report.

use vstd::prelude::*;

verus! {

/// Everything that can go wrong while working on an in-memory binary.
///
/// File I/O failures are the caller's concern: the library itself never
/// touches a file, so it has no variant for them.
#[derive(Debug, PartialEq, Eq)]
pub enum MrfError {
    /// A truncated varint, a section length that overruns the buffer, or
    /// trailing bytes that do not form a complete section.
    MalformedStream,
    /// No custom section with the well-known manifest name exists.
    ManifestNotFound,
    /// The manifest payload is not a valid JSON document; carries the
    /// parser's diagnostic.
    PayloadDecodeFailure(String),
    /// The external WebAssembly validator rejected the binary; carries its
    /// diagnostic.
    ValidationFailure(String),
}

} // verus!
