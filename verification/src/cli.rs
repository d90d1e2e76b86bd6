//! The commands the tool understands, as plain data. The binary around the
//! library parses its arguments into these; paths stay plain strings here,
//! since the library itself never opens a file.

use vstd::prelude::*;

verus! {

#[derive(Debug)]
pub struct AddManifest {
    pub manifest_file: String,
    pub module_file: String,
    pub output: String,
}

#[derive(Debug)]
pub struct ReadManifest {
    pub module_file: String,
}

#[derive(Debug)]
pub struct RemoveManifest {
    pub module_file: String,
    pub output: String,
}

#[derive(Debug)]
pub struct ValidateModule {
    pub module_file: String,
}

#[derive(Debug)]
pub enum ToolSubcommand {
    /// Add a manifest to a WASM component
    AddManifest(AddManifest),
    /// Read the manifest from a WASM component
    ReadManifest(ReadManifest),
    /// Remove the manifest from a WASM component
    RemoveManifest(RemoveManifest),
    /// Validate a WASM module
    ValidateModule(ValidateModule),
}

#[derive(Debug)]
pub struct ToolArgs {
    pub command: ToolSubcommand,
}

} // verus!
