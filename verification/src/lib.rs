//! The logic of a C-to-Rust transpiler around its translator: inline assembly,
//! diagnostics, kernel idioms, names and paths of modules, and the decisions of
//! a run over a compilation database.

pub mod assembly;
pub mod batch;
pub mod config;
pub mod crates;
pub mod diagnostics;
pub mod errors;
pub mod kernel_idioms;
pub mod names;
pub mod path_laws;
pub mod paths;
pub mod requirements;
pub mod session;
pub mod single;
pub mod text;
pub mod tools;
