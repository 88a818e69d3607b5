//! Small shared utilities: a drop guard over a shared boolean flag, and the
//! mapping of plain errors into the transport layer's error shape.

use std::sync::atomic::{AtomicBool, Ordering};
use std::sync::Arc;
use vstd::prelude::*;

verus! {

/// Raises a shared flag for as long as it lives: the flag is set on
/// construction and cleared when the guard is dropped.
pub struct AtomicDropGuard {
    b: Arc<AtomicBool>,
}

impl AtomicDropGuard {
    /// Sets the flag and takes custody of it.
    pub fn new(b: Arc<AtomicBool>) -> Self {
        b.store(true, Ordering::Relaxed);
        Self { b }
    }
}

impl Drop for AtomicDropGuard {
    /// Relies on `AtomicBool::store`, which neither unwinds nor touches any
    /// invariant.
    #[verifier::external_body]
    fn drop(&mut self)
        opens_invariants none
        no_unwind
    {
        self.b.store(false, Ordering::Release);
    }
}

/// An error as the transport layer reports it: a plain message.
#[derive(Debug)]
pub struct InternalError {
    pub message: String,
}

/// Wraps an error message into the transport layer's error shape, leaving a
/// success untouched.
pub fn to_internal_res<T>(r: Result<T, String>) -> (res: Result<T, InternalError>)
    ensures
        r matches Ok(v) ==> res matches Ok(w) && w == v,
        r matches Err(e) ==> res matches Err(ie) && ie.message == e,
{
    match r {
        Ok(v) => Ok(v),
        Err(e) => Err(InternalError { message: e }),
    }
}

} // verus!
