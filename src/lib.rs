//! Flattens a multi-file shading-language program into one translation unit.
//!
//! Import directives are resolved over a table of parsed modules, imported
//! names are mangled to globally unique identifiers, every use site is
//! rewritten, and the modules are concatenated in dependency order.
pub mod syntax;
pub mod rewrite;
pub mod mangle;
pub mod resolve;
pub mod assemble;
pub mod theorems;

pub use assemble::compile;
pub use mangle::{FileManglerHash, Mangler};
pub use resolve::{ImportError, Module, ModuleImport};
