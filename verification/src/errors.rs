//! The error taxonomy that generated wrapper routines report through.

use vstd::prelude::*;

verus! {

/// Failure kinds of the foreign-call bridge, surfaced by generated wrappers.
/// The generated source names this type in its `Result` signatures; the
/// generator itself never constructs a value of it.
#[derive(Debug, Clone, Copy, PartialEq, Eq, Structural)]
pub enum JNIError {
    NullPtr,
    InvalidArg,
    Unknown,
    NoClass,
    NoMethod,
    NoField,
    NoMemory,
    ClassType,
    ThreadDetached,
    AttachFailed,
    UnknownError,
}

} // verus!
