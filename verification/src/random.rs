//! The random-fill constructor: a fresh tensor whose buffer is filled from
//! an external random-value source for the element type.

use crate::layout::{get_size_and_strides, shape_size};
use crate::tensor::{copy_extents, Tensor};
use std::rc::Rc;
use vstd::prelude::*;

verus! {

/// Relies on rand::random: one value of the element type, drawn from the
/// thread-local generator. Nothing is promised of which value comes back —
/// two calls may differ — so callers state only what holds of every outcome.
#[verifier::external_body]
fn random_value<T>() -> T where
    rand::distributions::Standard: rand::distributions::Distribution<T>,
 {
    rand::random()
}

impl<T> Tensor<T> where rand::distributions::Standard: rand::distributions::Distribution<T> {
    /// A fresh tensor of the given shape whose elements are drawn
    /// independently from the random source. The shape's suffix products
    /// must be representable: each is a stride or the size of the result.
    pub fn rand(shape: &[usize]) -> (r: Tensor<T>)
        requires
            forall|k: int|
                0 <= k <= shape@.len() ==> shape_size(#[trigger] shape@.skip(k)) <= usize::MAX,
        ensures
            r.wf(),
            r.base_index == 0,
            r.shape@ == shape@,
            r.size == shape_size(shape@),
            r.data@.len() == r.size,
    {
        match get_size_and_strides(shape) {
            Some((size, strides)) => {
                let mut data: Vec<T> = Vec::with_capacity(size);
                let mut i: usize = 0;
                while i < size
                    invariant
                        i <= size,
                        data@.len() == i,
                    decreases size - i,
                {
                    data.push(random_value());
                    i += 1;
                }
                Tensor {
                    data: Rc::new(data),
                    base_index: 0,
                    size,
                    shape: copy_extents(shape),
                    strides,
                }
            },
            None => unreached(),
        }
    }
}

} // verus!
