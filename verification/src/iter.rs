//! Row-major traversal: an odometer over per-dimension counters that yields
//! flat buffer offsets, and an element iterator built on it.

use crate::layout::{
    flat_offset, lemma_flat_offset_bound, lemma_flat_offset_update, lemma_flat_offset_zeros,
    lemma_shape_size_nonneg, lemma_shape_size_pos, lemma_shape_size_skip_unfold, shape_size,
    stride_at,
};
use crate::tensor::{rc_as_ref, Tensor};
use vstd::prelude::*;

verus! {

/// Walks the flat buffer offsets of a tensor's logical elements in
/// row-major order (last dimension fastest): a per-dimension counter is
/// incremented odometer-style, adding the dimension's stride to a running
/// offset and carrying leftward when a counter reaches its extent.
pub struct TensorIndexIterator<T> {
    pub tensor: Tensor<T>,
    pub index: Vec<usize>,
    pub data_index: usize,
    pub is_done: bool,
}

impl<T> TensorIndexIterator<T> {
    pub open spec fn wf(self) -> bool {
        &&& self.tensor.wf()
        &&& self.index@.len() == self.tensor.shape@.len()
        &&& !self.is_done ==> forall|d: int|
            0 <= d < self.index@.len() ==> self.index@[d] < self.tensor.shape@[d]
        &&& !self.is_done ==> self.data_index == self.tensor.base_index + flat_offset(
            self.index@,
            self.tensor.shape@,
            self.index@.len() as int,
        )
    }

    /// How many offsets have been yielded so far; `size` once exhausted.
    pub open spec fn pos(self) -> int {
        if self.is_done {
            self.tensor.size as int
        } else {
            flat_offset(self.index@, self.tensor.shape@, self.index@.len() as int)
        }
    }

    /// The traversal position stays within `0 ..= size`, and is strictly
    /// below `size` until the traversal is exhausted.
    pub proof fn lemma_pos_in_range(self)
        requires
            self.wf(),
        ensures
            0 <= self.pos() <= self.tensor.size,
            !self.is_done ==> self.pos() < self.tensor.size,
    {
        if !self.is_done {
            let rank = self.index@.len() as int;
            lemma_flat_offset_bound(self.index@, self.tensor.shape@, rank);
            assert(self.tensor.shape@.skip(rank) =~= Seq::<usize>::empty());
            assert(shape_size(Seq::<usize>::empty()) == 1);
        }
    }

    /// Starts a traversal at logical position 0 (all counters zero, offset
    /// at the base), or already exhausted for a view with no elements.
    pub fn new(tensor: Tensor<T>) -> (r: TensorIndexIterator<T>)
        requires
            tensor.wf(),
        ensures
            r.wf(),
            r.tensor == tensor,
            r.pos() == 0,
    {
        let rank = tensor.shape.len();
        let is_done = tensor.size == 0;
        let index: Vec<usize> = vec![0; rank];
        proof {
            assert forall|d: int| 0 <= d < rank implies index@[d] == 0 by {
                assert(cloned(0usize, index@[d]));
            }
            lemma_flat_offset_zeros(index@, tensor.shape@, rank as int);
            if tensor.size != 0 {
                lemma_shape_size_nonneg(tensor.shape@);
                lemma_shape_size_pos(tensor.shape@);
            }
        }
        TensorIndexIterator { data_index: tensor.base_index, index, tensor, is_done }
    }

    /// Yields the offset of the current logical position and advances:
    /// starting from the last dimension, the counter is incremented and its
    /// stride added to the offset; a counter reaching its extent resets to
    /// zero (undoing the wrap) and carries into the dimension to its left. A
    /// carry past the first dimension — immediately, for a rank-0 tensor,
    /// which yields exactly its one offset — exhausts the traversal.
    pub fn next(&mut self) -> (r: Option<usize>)
        requires
            old(self).wf(),
        ensures
            final(self).wf(),
            final(self).tensor == old(self).tensor,
            old(self).pos() == old(self).tensor.size ==> r is None && *final(self) == *old(self),
            old(self).pos() < old(self).tensor.size ==> (r matches Some(o) && o == old(
                self,
            ).tensor.base_index + old(self).pos() && final(self).pos() == old(self).pos() + 1),
    {
        proof {
            old(self).lemma_pos_in_range();
        }
        if self.is_done {
            return None;
        }
        let result = self.data_index;
        let ghost v = self.pos();
        let rank = self.tensor.shape.len();
        let mut d = rank;
        proof {
            assert(self.tensor.shape@.skip(rank as int) =~= Seq::<usize>::empty());
            assert(shape_size(Seq::<usize>::empty()) == 1);
        }
        loop
            invariant_except_break
                d <= rank,
                rank == self.tensor.shape@.len(),
                self.tensor == old(self).tensor,
                self.tensor.wf(),
                self.index@.len() == rank,
                self.is_done == false,
                forall|e: int| 0 <= e < rank ==> self.index@[e] < self.tensor.shape@[e],
                forall|e: int| d <= e < rank ==> self.index@[e] == 0,
                flat_offset(self.index@, self.tensor.shape@, rank as int) + shape_size(
                    self.tensor.shape@.skip(d as int),
                ) == v + 1,
                self.data_index == self.tensor.base_index + flat_offset(
                    self.index@,
                    self.tensor.shape@,
                    rank as int,
                ),
                0 <= v < self.tensor.size,
            ensures
                self.tensor == old(self).tensor,
                self.wf(),
                self.pos() == v + 1,
            decreases d,
        {
            if d == 0 {
                self.is_done = true;
                proof {
                    lemma_flat_offset_zeros(self.index@, self.tensor.shape@, rank as int);
                    assert(self.tensor.shape@.skip(0) =~= self.tensor.shape@);
                }
                break;
            }
            d = d - 1;
            let ext = self.tensor.shape[d];
            let st = self.tensor.strides[d];
            let idx_d = self.index[d];
            let ghost pre_index = self.index@;
            let ghost pre_flat = flat_offset(pre_index, self.tensor.shape@, rank as int);
            proof {
                lemma_shape_size_skip_unfold(self.tensor.shape@, d as int);
                lemma_shape_size_nonneg(self.tensor.shape@.skip(d as int));
                lemma_shape_size_nonneg(self.tensor.shape@.skip(d + 1));
                lemma_flat_offset_update(
                    pre_index,
                    self.tensor.shape@,
                    rank as int,
                    d as int,
                    (idx_d + 1) as usize,
                );
                assert(st == stride_at(self.tensor.shape@, d as int));
                assert(flat_offset(
                    pre_index.update(d as int, (idx_d + 1) as usize),
                    self.tensor.shape@,
                    rank as int,
                ) == pre_flat + ((idx_d + 1) - idx_d) * (st as int));
                assert(((idx_d + 1) - idx_d) * (st as int) == st) by (nonlinear_arith);
            }
            self.index[d] = idx_d + 1;
            proof {
                assert(self.index@ == pre_index.update(d as int, (idx_d + 1) as usize));
                assert(flat_offset(self.index@, self.tensor.shape@, rank as int) == pre_flat + st);
            }
            self.data_index = self.data_index + st;
            if idx_d + 1 < ext {
                proof {
                    assert(self.pos() == v + 1);
                }
                break;
            }
            let ghost inc_index = self.index@;
            self.index[d] = 0;
            proof {
                lemma_flat_offset_update(inc_index, self.tensor.shape@, rank as int, d as int, 0);
                assert((0 - ext as int) * (st as int) == -((ext as int) * (st as int)))
                    by (nonlinear_arith);
                assert(self.index@ == inc_index.update(d as int, 0usize));
                assert(flat_offset(self.index@, self.tensor.shape@, rank as int) == pre_flat + st
                    - ext * st);
                lemma_flat_offset_bound(self.index@, self.tensor.shape@, rank as int);
                assert(ext * st == shape_size(self.tensor.shape@.skip(d as int)));
                if d >= 1 {
                    assert(self.tensor.strides@[d - 1] == stride_at(self.tensor.shape@, d - 1));
                    assert(stride_at(self.tensor.shape@, d - 1) == shape_size(
                        self.tensor.shape@.skip(d as int),
                    ));
                } else {
                    assert(self.tensor.shape@.skip(0) =~= self.tensor.shape@);
                }
                assert(ext * st <= usize::MAX);
            }
            self.data_index = self.data_index - ext * st;
        }
        Some(result)
    }
}

/// Yields the elements of a tensor in row-major traversal order, cloning
/// each out of the shared buffer at the offsets the odometer produces.
pub struct TensorIterator<T> {
    pub index_iterator: TensorIndexIterator<T>,
}

impl<T> TensorIterator<T> {
    pub open spec fn wf(self) -> bool {
        self.index_iterator.wf()
    }

    pub open spec fn pos(self) -> int {
        self.index_iterator.pos()
    }

    /// Starts an element traversal of `tensor` at position 0.
    pub fn new(tensor: Tensor<T>) -> (r: TensorIterator<T>)
        requires
            tensor.wf(),
        ensures
            r.wf(),
            r.index_iterator.tensor == tensor,
            r.pos() == 0,
    {
        TensorIterator { index_iterator: TensorIndexIterator::new(tensor) }
    }
}

impl<T: Clone> TensorIterator<T> {
    /// Yields a clone of the element at the current traversal position, or
    /// nothing once all `size` elements have been yielded.
    pub fn next(&mut self) -> (r: Option<T>)
        requires
            old(self).wf(),
        ensures
            final(self).wf(),
            final(self).index_iterator.tensor == old(self).index_iterator.tensor,
            old(self).pos() == old(self).index_iterator.tensor.size ==> r is None && *final(self)
                == *old(self),
            old(self).pos() < old(self).index_iterator.tensor.size ==> (r matches Some(x) && cloned(
                old(self).index_iterator.tensor.data@[old(self).index_iterator.tensor.base_index
                    + old(self).pos()],
                x,
            ) && final(self).pos() == old(self).pos() + 1),
    {
        proof {
            old(self).index_iterator.lemma_pos_in_range();
        }
        match self.index_iterator.next() {
            Some(index) => {
                let buf = rc_as_ref(&self.index_iterator.tensor.data);
                Some(buf[index].clone())
            },
            None => None,
        }
    }
}

impl<T: Clone> Tensor<T> {
    /// An element iterator over a fresh shallow clone of this view; the
    /// caller's handle stays usable alongside the traversal.
    pub fn iter(&self) -> (r: TensorIterator<T>)
        requires
            self.wf(),
        ensures
            r.wf(),
            r.pos() == 0,
            r.index_iterator.tensor.data@ == self.data@,
            r.index_iterator.tensor.base_index == self.base_index,
            r.index_iterator.tensor.size == self.size,
            r.index_iterator.tensor.shape@ == self.shape@,
    {
        TensorIterator::new(self.shallow_clone())
    }
}

} // verus!
