//! An interface compiler for components that call one another.
//!
//! From the declarations of a component the library derives the model of
//! its interface ([`extract`]), keeps of its records and variants those
//! that the exposed routines need ([`closure`]), and writes the interface
//! text ([`emit`]). From interface text it reads the routines back
//! ([`parse`]) and generates the functions of the calling and of the called
//! side ([`stubs`]), the crate that holds the calling functions
//! ([`assemble`]) and the manifests that crate is entered in
//! ([`manifest`], [`generate`]).
//!
//! Types are mapped between the two languages in [`types`] and [`host`],
//! names in [`naming`]. Every contract speaks of text as a sequence of
//! characters ([`text`]). What holds of the parts together is proved in
//! [`laws`].

pub mod assemble;
pub mod closure;
pub mod emit;
pub mod extract;
pub mod generate;
pub mod host;
pub mod interface;
pub mod laws;
pub mod manifest;
pub mod naming;
pub mod parse;
pub mod stubs;
pub mod text;
pub mod types;

pub use generate::create_caller_utils;
pub use naming::{to_pascal_case, to_snake_case};
