//! Renders hotkey script definitions for a command-line tool from the shape
//! of struct and enum declarations.
//!
//! A struct with named fields becomes one callable definition whose
//! parameters are the field names and whose body runs the tool with the
//! kebab-cased type name followed by `%field%` placeholders. An enum whose
//! variants are unit variants or wrap structs becomes a library of such
//! definitions under a banner line.

pub mod casing;
pub mod decl;
pub mod generate;
pub mod laws;
pub mod text;

pub use decl::{StructDecl, StructFields, TypeDecl, UnsupportedShape, Variant, VariantFields};
pub use generate::{ahk_function, ahk_library};
