//! The single error kind reported by tensor operations.

use vstd::prelude::*;

verus! {

/// An error from a tensor operation, carrying a human-readable message.
///
/// One kind covers all three failure conditions: an index with more entries
/// than the tensor's rank, an out-of-range index in a single dimension, and a
/// reshape to a shape of a different total size. The message says which.
#[derive(Debug)]
pub struct TensorError {
    pub message: String,
}

impl TensorError {
    pub fn new(message: String) -> (r: TensorError)
        ensures
            r.message == message,
    {
        TensorError { message }
    }
}

} // verus!
