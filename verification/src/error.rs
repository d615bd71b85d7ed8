//! The error taxonomy: every failure the library reports to its callers.

use vstd::prelude::*;

use crate::pipeline::Stage;
use crate::requirement::Requirement;

verus! {

#[derive(Debug)]
pub enum Error {
    /// The requirement text does not parse; carries the offending text.
    InvalidRequirement(Vec<u8>),
    /// No declaration file anywhere up the directory chain and no default.
    NoRequirementFound,
    /// No installed toolchain satisfies the requirement; carries it.
    ToolchainNotInstalled(Requirement),
    /// A shim was invoked under a basename the alias table does not know.
    UnknownShimTarget(Vec<u8>),
    /// The resolved toolchain has no binary for the requested command.
    BinaryMissing(Vec<u8>),
    /// A pipeline stage's external process exited non-zero.
    StageFailed { stage: Stage, exit_code: i32, output_tail: Vec<u8> },
    /// An otherwise-unclassified filesystem or process failure.
    Io(Vec<u8>),
}

} // verus!
