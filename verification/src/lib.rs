//! Generates native wrapper bindings for classes of a managed virtual machine.
//!
//! The library turns the textual disassembly of a class into a structured
//! model of its members (`javap`, `descriptor`), assigns each member a unique
//! emittable name (`resolver`), and compiles the model into the source text of
//! a wrapper module (`emit`).  Invoking the disassembler and writing the
//! generated file are left to the caller.

pub mod descriptor;
pub mod emit;
pub mod errors;
pub mod javap;
pub mod resolver;
pub mod text;
