//! Verified core of `cdm-linker`, the linker driver of the CdM-16 target, and
//! of the CdM-16 runtime support routines.
//!
//! - `cli`, `linker`, `out_type`, `optimization`: the command line, the link
//!   session, the plan of tool runs and the tool command lines;
//! - `path`, `text`, `string_utils`: path, string and text handling;
//! - `hashing`, `tool_output`: the outside computations the linker relies on;
//! - `target`: the `cdm-none` compiler target;
//! - `builtins`, `mem`: integer arithmetic and memory routines of the runtime.
pub mod builtins;
pub mod cli;
pub mod hashing;
pub mod linker;
pub mod mem;
pub mod optimization;
pub mod out_type;
pub mod path;
pub mod string_utils;
pub mod target;
pub mod text;
pub mod tool_output;

pub use cli::Args;
pub use linker::{CompilationOptions, Session};
pub use optimization::Optimization;
pub use out_type::{InvalidOutputType, OutputType};
