//! Embeds, extracts and removes an out-of-band metadata block (a "manifest")
//! carried in a custom section of a WebAssembly binary, by manipulating the
//! binary's top-level section stream directly, byte for byte.

use vstd::prelude::*;

pub mod cli;
pub mod error;
pub mod json;
pub mod laws;
pub mod ops;
pub mod stream;
pub mod varint;
pub mod wasm;

verus! {

} // verus!
