//! The error taxonomy of the library.
//!
//! Absence of a wrapper pattern is never an error; these variants cover
//! genuine failures: a bad starting path, a failed read with its context, a
//! link that could not be followed, and a revisited path within one
//! resolution. `WrapperParsing` and `PathEncoding` are reserved and never
//! raised by the resolver today.

use vstd::prelude::*;

verus! {

#[derive(Debug, Clone)]
pub enum SymseekError {
    NotFound { name: String, searched_locations: Vec<String> },
    Io { context: String, message: String },
    InvalidInput { message: String },
    SymlinkResolution { path: String, reason: String },
    PathEncoding { path: String },
    CycleDetected { path: String },
    WrapperParsing { path: String, reason: String },
    JsonSerialization { message: String },
}

} // verus!
