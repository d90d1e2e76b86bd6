//! The external WebAssembly validator, behind trusted declarations. The
//! library forwards the whole buffer and surfaces the verdict; nothing of the
//! binary's deeper structure is interpreted here.

use vstd::prelude::*;

verus! {

/// Whether wasmparser's validator, with its default feature set, accepts the
/// byte string as a well-formed WebAssembly module or component.
pub uninterp spec fn wasm_is_valid(b: Seq<u8>) -> bool;

#[verifier::external_type_specification]
#[verifier::external_body]
pub struct ExWasmError(wasmparser::BinaryReaderError);

/// Relies on wasmparser::validate: it returns `Ok` exactly on binaries that
/// validate under the default features, and its verdict depends on the bytes
/// alone.
#[verifier::external_body]
pub(crate) fn wasm_validate(data: &[u8]) -> (r: Result<(), wasmparser::BinaryReaderError>)
    ensures
        r is Ok == wasm_is_valid(data@),
{
    match wasmparser::validate(data) {
        Ok(_) => Ok(()),
        Err(e) => Err(e),
    }
}

/// Relies on wasmparser::BinaryReaderError::message for the validator's
/// diagnostic text.
#[verifier::external_body]
pub(crate) fn wasm_error_message(e: &wasmparser::BinaryReaderError) -> String {
    e.message().to_string()
}

} // verus!
