//! Per-project Python toolchain manager: version requirements, directory
//! resolution, a registry of installed toolchains, shim dispatch, and the
//! build/install pipeline state machine.

pub mod alias;
pub mod digits;
pub mod error;
pub mod extract;
pub mod pipeline;
pub mod registry;
pub mod reporter;
pub mod requirement;
pub mod resolver;
pub mod shim;
pub mod version;
