//! The older per-operation error type, kept for callers that still name
//! it; newer code reports `errors::ObjectError`.

use vstd::prelude::*;

verus! {

/// A per-operation protocol error carrying its message.
#[derive(Debug, Clone, PartialEq, Eq)]
pub enum ObjectError {
    PutError(String),
    GetError(String),
    CopyError(String),
    DeleteError(String),
}

} // verus!
