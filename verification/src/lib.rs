//! A verified planner for a native-code backend of Bril, a small typed
//! intermediate representation made of functions of labelled basic blocks.
//!
//! The library decides everything a backend has to do for a program: how each
//! function is lowered into native instructions, which entry shims are built,
//! in which order functions are declared, defined, finalized and invoked, and
//! how command-line words become typed arguments. What it hands out is plain
//! data which a driver replays against a code generator.

pub mod args;
pub mod bindings;
pub mod blocks;
pub mod facade;
pub mod laws;
pub mod lower;
pub mod lower_laws;
pub mod meaning;
pub mod meaning_laws;
pub mod model;
pub mod native;
pub mod opt_level;
pub mod plan_laws;
pub mod replay;
pub mod runtime;
pub mod swap_laws;
pub mod target;
pub mod text;
pub mod translator;
pub mod wrapper;

pub use facade::{check_program, compile, compile_failure, compile_in, jit_run, run_failure};
pub use opt_level::OptLevel;
pub use runtime::c_runtime;
