//! Data types for the collator command line.

use vstd::prelude::*;

verus! {

/// Sub-commands supported by the collator.
#[derive(Clone, Copy, Debug, PartialEq, Eq, Structural)]
pub enum Subcommand {
    /// Export the genesis state of the parachain.
    ExportGenesisState(ExportGenesisStateCommand),
    /// Export the genesis wasm of the parachain.
    ExportGenesisWasm(ExportGenesisWasmCommand),
}

impl Subcommand {
    /// The name the command is invoked by.
    pub fn name(&self) -> (r: &'static str)
        ensures
            self is ExportGenesisState ==> r@ == "export-genesis-state"@,
            self is ExportGenesisWasm ==> r@ == "export-genesis-wasm"@,
    {
        match self {
            Subcommand::ExportGenesisState(_) => "export-genesis-state",
            Subcommand::ExportGenesisWasm(_) => "export-genesis-wasm",
        }
    }
}

/// Command for exporting the genesis state of the parachain.
#[derive(Clone, Copy, Debug, PartialEq, Eq, Structural)]
pub struct ExportGenesisStateCommand {}

/// Command for exporting the genesis wasm file.
#[derive(Clone, Copy, Debug, PartialEq, Eq, Structural)]
pub struct ExportGenesisWasmCommand {}

} // verus!
