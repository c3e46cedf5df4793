//! The tensor itself: a strided view over a shared, reference-counted
//! buffer, with constructors, sub-indexing, reshaping and deep copies.

use crate::error::TensorError;
use crate::layout::{
    flat_offset, get_size_and_strides, lemma_flat_offset_bound, lemma_shape_size_nonneg,
    shape_size, stride_at,
};
use crate::text::dec_str;
use std::rc::Rc;
use vstd::prelude::*;
use vstd::string::StringExecFns;

verus! {

/// Relies on Rc::clone: a new shared handle to the same buffer, without
/// copying its contents.
#[verifier::external_body]
fn rc_clone<T>(rc: &Rc<Vec<T>>) -> (r: Rc<Vec<T>>)
    ensures
        r == *rc,
{
    Rc::clone(rc)
}

/// Relies on Rc::as_ref (shared deref): a read-only borrow of the buffer
/// behind the handle.
#[verifier::external_body]
pub(crate) fn rc_as_ref<T>(rc: &Rc<Vec<T>>) -> (r: &Vec<T>)
    ensures
        r@ == rc@,
{
    rc.as_ref()
}

/// The message reported when an index has more entries than the rank.
pub open spec fn too_many_dims_msg() -> Seq<char> {
    "index has too many dimensions"@
}

/// The message reported when index value `v` is out of range in dimension `d`
/// and tiling is off.
pub open spec fn out_of_range_msg(v: usize, d: usize) -> Seq<char> {
    "index "@ + dec_str(v as int) + " is out of range for dimension "@ + dec_str(d as int)
}

/// The message reported when a reshape target implies a different total size.
pub open spec fn size_mismatch_msg() -> Seq<char> {
    "new shape cannot be of a different size"@
}

/// The per-dimension index values actually consumed: with tiling, each is
/// taken modulo its extent (wrap-around addressing); without, as given.
pub open spec fn resolved_index(idx: Seq<usize>, shape: Seq<usize>, tile: bool) -> Seq<usize> {
    if tile {
        Seq::new(idx.len(), |j: int| ((idx[j] as int) % (shape[j] as int)) as usize)
    } else {
        idx
    }
}

/// Truncating integer division: the quotient rounded toward zero, as
/// division on machine integers behaves.
pub open spec fn trunc_div(a: int, b: int) -> int
    recommends
        b >= 1,
{
    if a >= 0 {
        a / b
    } else {
        -((-a) / b)
    }
}

/// The step between consecutive linspace values: the difference of the
/// endpoints divided by the element count, rounded toward zero. Dividing by
/// `n` (not `n - 1`) means the `xend` endpoint itself is not produced.
pub open spec fn linspace_step(x0: int, xend: int, n: int) -> int
    recommends
        n >= 1,
{
    trunc_div(xend - x0, n)
}

/// The `i`-th linspace value: the start plus `i` steps.
pub open spec fn linspace_at(x0: int, xend: int, n: int, i: int) -> int
    recommends
        n >= 1,
{
    x0 + i * linspace_step(x0, xend, n)
}

/// A view over a shared element buffer: a base offset, a shape, the
/// row-major strides of that shape, and the cached total element count.
/// Many tensors may hold handles to one buffer; no operation here mutates
/// buffer contents, so views only ever observe each other.
#[derive(Debug)]
pub struct Tensor<T> {
    pub data: Rc<Vec<T>>,
    pub base_index: usize,
    pub size: usize,
    pub shape: Vec<usize>,
    pub strides: Vec<usize>,
}

impl<T> Tensor<T> {
    /// Well-formedness: strides are exactly the row-major strides of the
    /// shape, the cached size is the product of the extents, and the whole
    /// view lies inside the buffer. Every constructor establishes this and
    /// every derived view preserves it.
    pub open spec fn wf(self) -> bool {
        &&& self.strides@.len() == self.shape@.len()
        &&& forall|d: int|
            0 <= d < self.shape@.len() ==> self.strides@[d] == stride_at(self.shape@, d)
        &&& self.size == shape_size(self.shape@)
        &&& self.base_index + self.size <= self.data@.len()
        &&& self.data@.len() <= usize::MAX
    }

    /// The logical element sequence of this view, in traversal (row-major)
    /// order: the contiguous run of the buffer the view covers.
    pub open spec fn elems(self) -> Seq<T> {
        self.data@.subrange(self.base_index as int, self.base_index + self.size)
    }

    /// Number of dimensions; 0 for a scalar.
    pub fn rank(&self) -> (r: usize)
        ensures
            r == self.shape@.len(),
    {
        self.shape.len()
    }

    /// Total logical element count.
    pub fn size(&self) -> (r: usize)
        ensures
            r == self.size,
    {
        self.size
    }

    /// The per-dimension extents.
    pub fn shape(&self) -> (r: &[usize])
        ensures
            r@ == self.shape@,
    {
        self.shape.as_slice()
    }

    pub fn is_scalar(&self) -> (r: bool)
        ensures
            r == (self.shape@.len() == 0),
    {
        self.shape.len() == 0
    }

    /// Length of the underlying shared buffer. Views made by `get`,
    /// `reshape` and `flatten` keep the source's buffer; `deep_clone`
    /// allocates a fresh one sized exactly to the view.
    pub fn buffer_len(&self) -> (r: usize)
        ensures
            r == self.data@.len(),
    {
        rc_as_ref(&self.data).len()
    }

    /// A new view with the same buffer handle and the same metadata.
    pub fn shallow_clone(&self) -> (r: Tensor<T>)
        ensures
            r.data == self.data,
            r.base_index == self.base_index,
            r.size == self.size,
            r.shape@ == self.shape@,
            r.strides@ == self.strides@,
            r.elems() == self.elems(),
            self.wf() ==> r.wf(),
    {
        let shape = copy_extents(self.shape.as_slice());
        let strides = copy_extents(self.strides.as_slice());
        Tensor {
            data: rc_clone(&self.data),
            base_index: self.base_index,
            size: self.size,
            shape,
            strides,
        }
    }

    /// Resolves a partial index to a flat buffer offset: the base offset
    /// plus each consumed index times its dimension's stride. With `tile`,
    /// each index wraps modulo its extent; without, an index at or above its
    /// extent is an out-of-range error. An index with more entries than the
    /// rank is a dimensionality error.
    pub fn get_data_index(&self, index: &[usize], tile: bool) -> (r: Result<usize, TensorError>)
        requires
            self.wf(),
            tile && index@.len() <= self.shape@.len() ==> forall|j: int|
                0 <= j < index@.len() ==> self.shape@[j] >= 1,
        ensures
            ({
                let k = index@.len() as int;
                let shape = self.shape@;
                &&& (r is Ok <==> k <= shape.len() && (tile || forall|j: int|
                    0 <= j < k ==> index@[j] < shape[j]))
                &&& (r matches Ok(o) ==> o == self.base_index + flat_offset(
                    resolved_index(index@, shape, tile),
                    shape,
                    k,
                ))
                &&& (k > shape.len() ==> (r matches Err(e) && e.message@ == too_many_dims_msg()))
                &&& (r is Err && k <= shape.len() ==> exists|j: int|
                    0 <= j < k && index@[j] >= shape[j] && (forall|j2: int|
                        0 <= j2 < j ==> index@[j2] < shape[j2]) && (r matches Err(e)
                        && e.message@ == out_of_range_msg(index@[j], j as usize)))
            }),
    {
        let k = index.len();
        if k > self.shape.len() {
            return Err(TensorError::new("index has too many dimensions".to_owned()));
        }
        let ghost res_idx = resolved_index(index@, self.shape@, tile);
        let mut data_index: usize = self.base_index;
        let mut i: usize = 0;
        while i < k
            invariant
                self.wf(),
                i <= k,
                k == index@.len(),
                k <= self.shape@.len(),
                tile ==> forall|j: int| 0 <= j < k ==> self.shape@[j] >= 1,
                res_idx == resolved_index(index@, self.shape@, tile),
                res_idx.len() == k,
                forall|j: int| 0 <= j < i ==> res_idx[j] < self.shape@[j],
                !tile ==> forall|j: int| 0 <= j < i ==> index@[j] < self.shape@[j],
                data_index == self.base_index + flat_offset(res_idx, self.shape@, i as int),
            decreases k - i,
        {
            let mut next_index = index[i];
            if tile {
                next_index = next_index % self.shape[i];
            } else if next_index >= self.shape[i] {
                let mut m = "index ".to_owned();
                crate::text::push_u64_str(&mut m, next_index as u64);
                m.append(" is out of range for dimension ");
                crate::text::push_u64_str(&mut m, i as u64);
                proof {
                    assert(m@ =~= out_of_range_msg(index@[i as int], i));
                }
                return Err(TensorError::new(m));
            }
            assert(next_index == res_idx[i as int] && next_index < self.shape@[i as int]);
            proof {
                lemma_flat_offset_bound(res_idx, self.shape@, i + 1);
                lemma_shape_size_nonneg(self.shape@.skip(i + 1));
                lemma_flat_offset_bound(res_idx, self.shape@, i as int);
                assert(flat_offset(res_idx, self.shape@, i + 1) == flat_offset(
                    res_idx,
                    self.shape@,
                    i as int,
                ) + res_idx[i as int] * stride_at(self.shape@, i as int));
                assert(self.strides@[i as int] == stride_at(self.shape@, i as int));
                assert(res_idx[i as int] * stride_at(self.shape@, i as int) <= flat_offset(
                    res_idx,
                    self.shape@,
                    i + 1,
                ));
                assert(flat_offset(res_idx, self.shape@, i + 1) <= shape_size(self.shape@));
            }
            data_index = data_index + next_index * self.strides[i];
            i += 1;
        }
        Ok(data_index)
    }

    /// Indexes the leading dimensions, yielding a lower-rank view into the
    /// same buffer: the resolved offset becomes the new base, and the
    /// unconsumed trailing dimensions become the new shape and strides.
    pub fn get(&self, index: &[usize]) -> (r: Result<Tensor<T>, TensorError>)
        requires
            self.wf(),
        ensures
            ({
                let k = index@.len() as int;
                let shape = self.shape@;
                &&& (r is Ok <==> k <= shape.len() && forall|j: int|
                    0 <= j < k ==> index@[j] < shape[j])
                &&& (r matches Ok(t) ==> {
                    &&& t.wf()
                    &&& t.data == self.data
                    &&& t.base_index == self.base_index + flat_offset(index@, shape, k)
                    &&& t.shape@ == shape.skip(k)
                    &&& t.strides@ == self.strides@.skip(k)
                    &&& t.size == shape_size(shape.skip(k))
                })
                &&& (k > shape.len() ==> (r matches Err(e) && e.message@ == too_many_dims_msg()))
                &&& (r is Err && k <= shape.len() ==> exists|j: int|
                    0 <= j < k && index@[j] >= shape[j] && (forall|j2: int|
                        0 <= j2 < j ==> index@[j2] < shape[j2]) && (r matches Err(e)
                        && e.message@ == out_of_range_msg(index@[j], j as usize)))
            }),
    {
        let base_index = match self.get_data_index(index, false) {
            Ok(b) => b,
            Err(e) => {
                return Err(e);
            },
        };
        let k = index.len();
        let new_shape = copy_extents(
            vstd::slice::slice_subrange(self.shape.as_slice(), k, self.shape.len()),
        );
        let new_strides = copy_extents(
            vstd::slice::slice_subrange(self.strides.as_slice(), k, self.strides.len()),
        );
        proof {
            assert(new_shape@ =~= self.shape@.skip(k as int));
            assert(new_strides@ =~= self.strides@.skip(k as int));
            assert forall|m: int| 0 <= m <= new_shape@.len() implies shape_size(
                #[trigger] new_shape@.skip(m),
            ) <= usize::MAX by {
                assert(new_shape@.skip(m) =~= self.shape@.skip(k + m));
                if k + m == 0 {
                    assert(self.shape@.skip(0) =~= self.shape@);
                } else {
                    assert(shape_size(self.shape@.skip(k + m)) == stride_at(
                        self.shape@,
                        k + m - 1,
                    ));
                    assert(self.strides@[k + m - 1] == stride_at(self.shape@, k + m - 1));
                }
            }
        }
        let new_size = match get_size_and_strides(new_shape.as_slice()) {
            Some((s, _)) => s,
            None => unreached(),
        };
        let t = Tensor {
            data: rc_clone(&self.data),
            base_index,
            size: new_size,
            shape: new_shape,
            strides: new_strides,
        };
        proof {
            assert forall|d: int| 0 <= d < t.shape@.len() implies t.strides@[d] == stride_at(
                t.shape@,
                d,
            ) by {
                assert(t.strides@[d] == self.strides@[k + d]);
                assert(self.strides@[k + d] == stride_at(self.shape@, k + d));
                assert(t.shape@.skip(d + 1) =~= self.shape@.skip(k + d + 1));
            }
            lemma_flat_offset_bound(index@, self.shape@, k as int);
        }
        Ok(t)
    }

    /// A view of the same elements under a new shape with the same total
    /// size, over the same buffer and base offset; a target shape of any
    /// other total size is a size-mismatch error. A target whose suffix
    /// products overflow `usize` cannot carry strides, so its total size is
    /// required to be representable whenever it matches.
    pub fn reshape(&self, new_shape: &[usize]) -> (r: Result<Tensor<T>, TensorError>)
        requires
            self.wf(),
            shape_size(new_shape@) == self.size ==> forall|k: int|
                0 <= k <= new_shape@.len() ==> shape_size(#[trigger] new_shape@.skip(k))
                    <= usize::MAX,
        ensures
            r is Ok <==> shape_size(new_shape@) == self.size,
            r matches Ok(t) ==> {
                &&& t.wf()
                &&& t.data == self.data
                &&& t.base_index == self.base_index
                &&& t.size == self.size
                &&& t.shape@ == new_shape@
                &&& t.elems() == self.elems()
            },
            r matches Err(e) ==> e.message@ == size_mismatch_msg(),
    {
        match get_size_and_strides(new_shape) {
            None => Err(TensorError::new("new shape cannot be of a different size".to_owned())),
            Some((size, strides)) => {
                if size != self.size {
                    Err(TensorError::new("new shape cannot be of a different size".to_owned()))
                } else {
                    Ok(
                        Tensor {
                            data: rc_clone(&self.data),
                            base_index: self.base_index,
                            size: self.size,
                            shape: copy_extents(new_shape),
                            strides,
                        },
                    )
                }
            },
        }
    }

    /// A one-dimensional view of the same elements in traversal order:
    /// `reshape([size])`. Always succeeds.
    pub fn flatten(&self) -> (r: Result<Tensor<T>, TensorError>)
        requires
            self.wf(),
        ensures
            r is Ok,
            r matches Ok(t) ==> {
                &&& t.wf()
                &&& t.data == self.data
                &&& t.base_index == self.base_index
                &&& t.size == self.size
                &&& t.shape@.len() == 1 && t.shape@[0] == self.size
                &&& t.elems() == self.elems()
            },
    {
        let mut ns: Vec<usize> = Vec::new();
        ns.push(self.size);
        proof {
            assert(ns@.skip(1) =~= Seq::<usize>::empty());
            assert(ns@.drop_first() =~= Seq::<usize>::empty());
            assert(shape_size(Seq::<usize>::empty()) == 1);
            assert(shape_size(ns@) == self.size);
            assert forall|k: int| 0 <= k <= ns@.len() implies shape_size(#[trigger] ns@.skip(k))
                <= usize::MAX by {
                if k == 0 {
                    assert(ns@.skip(0) =~= ns@);
                }
            }
        }
        self.reshape(ns.as_slice())
    }

    /// Wraps a whole sequence of elements as a one-dimensional tensor of
    /// that length, sharing it as a fresh buffer.
    pub fn from_iter(data: Vec<T>) -> (r: Tensor<T>)
        ensures
            r.wf(),
            r.data@ == data@,
            r.base_index == 0,
            r.size == data@.len(),
            r.shape@.len() == 1 && r.shape@[0] == data@.len(),
    {
        let n = data.len();
        let mut shape: Vec<usize> = Vec::new();
        shape.push(n);
        let mut strides: Vec<usize> = Vec::new();
        strides.push(1);
        let r = Tensor { data: Rc::new(data), base_index: 0, size: n, shape, strides };
        proof {
            assert(r.shape@.skip(1) =~= Seq::<usize>::empty());
            assert(r.shape@.drop_first() =~= Seq::<usize>::empty());
            assert(shape_size(Seq::<usize>::empty()) == 1);
            assert(shape_size(r.shape@) == n);
            assert(stride_at(r.shape@, 0) == 1);
        }
        r
    }
}

/// Copies a slice of extents into a fresh vector.
pub(crate) fn copy_extents(s: &[usize]) -> (r: Vec<usize>)
    ensures
        r@ == s@,
{
    vstd::slice::slice_to_vec(s)
}

impl<T: Clone> Tensor<T> {
    /// A one-dimensional tensor holding a copy of each element of `arr`.
    pub fn from_array(arr: &[T]) -> (r: Tensor<T>)
        ensures
            r.wf(),
            r.base_index == 0,
            r.size == arr@.len(),
            r.shape@.len() == 1 && r.shape@[0] == arr@.len(),
            r.data@.len() == arr@.len(),
            forall|j: int| 0 <= j < arr@.len() ==> cloned(arr@[j], #[trigger] r.data@[j]),
    {
        let n = arr.len();
        let mut data: Vec<T> = Vec::new();
        let mut i: usize = 0;
        while i < n
            invariant
                i <= n,
                n == arr@.len(),
                data@.len() == i,
                forall|j: int| 0 <= j < i ==> cloned(arr@[j], #[trigger] data@[j]),
            decreases n - i,
        {
            data.push(arr[i].clone());
            i += 1;
        }
        Tensor::from_iter(data)
    }

    /// A fresh tensor of the given shape, every element a copy of `value`.
    /// The shape's suffix products must be representable: each is a stride
    /// or the size of the new tensor.
    pub fn from_shape(value: T, shape: &[usize]) -> (r: Tensor<T>)
        requires
            forall|k: int|
                0 <= k <= shape@.len() ==> shape_size(#[trigger] shape@.skip(k)) <= usize::MAX,
        ensures
            r.wf(),
            r.base_index == 0,
            r.shape@ == shape@,
            r.size == shape_size(shape@),
            r.data@.len() == r.size,
            forall|j: int| 0 <= j < r.data@.len() ==> cloned(value, #[trigger] r.data@[j]),
    {
        match get_size_and_strides(shape) {
            Some((size, strides)) => {
                let data = vec![value; size];
                let shape_vec = copy_extents(shape);
                Tensor { data: Rc::new(data), base_index: 0, size, shape: shape_vec, strides }
            },
            None => unreached(),
        }
    }

    /// Materializes the view into a wholly independent tensor: a fresh
    /// buffer, sized exactly to the view, holding the view's elements in
    /// traversal order, with the same shape, standard strides and base
    /// offset 0. Breaks all buffer sharing with the source.
    pub fn deep_clone(&self) -> (r: Tensor<T>)
        requires
            self.wf(),
        ensures
            r.wf(),
            r.base_index == 0,
            r.size == self.size,
            r.shape@ == self.shape@,
            r.data@.len() == self.size,
            forall|k: int|
                0 <= k < self.size ==> cloned(self.elems()[k], #[trigger] r.data@[k]),
    {
        let mut new_data: Vec<T> = Vec::with_capacity(self.size);
        let new_shape = copy_extents(self.shape.as_slice());
        let new_strides = copy_extents(self.strides.as_slice());
        let mut it = crate::iter::TensorIterator::new(self.shallow_clone());
        while new_data.len() < self.size
            invariant
                self.wf(),
                it.wf(),
                it.index_iterator.tensor.data@ == self.data@,
                it.index_iterator.tensor.base_index == self.base_index,
                it.index_iterator.tensor.size == self.size,
                new_data@.len() == it.pos(),
                it.pos() <= self.size,
                forall|k: int|
                    0 <= k < new_data@.len() ==> cloned(
                        self.data@[self.base_index + k],
                        #[trigger] new_data@[k],
                    ),
            decreases self.size - it.pos(),
        {
            match it.next() {
                Some(v) => {
                    new_data.push(v);
                },
                None => {
                    proof {
                        assert(false);
                    }
                },
            }
        }
        let r = Tensor {
            data: Rc::new(new_data),
            base_index: 0,
            size: self.size,
            shape: new_shape,
            strides: new_strides,
        };
        proof {
            assert forall|k: int| 0 <= k < self.size implies cloned(
                self.elems()[k],
                #[trigger] r.data@[k],
            ) by {
                assert(self.elems()[k] == self.data@[self.base_index + k]);
            }
        }
        r
    }

    /// A rank-0 tensor holding one copy of `value` in a one-slot buffer.
    pub fn scalar(value: T) -> (r: Tensor<T>)
        ensures
            r.wf(),
            r.base_index == 0,
            r.shape@.len() == 0,
            r.size == 1,
            r.data@.len() == 1,
            cloned(value, r.data@[0]),
    {
        let empty: Vec<usize> = Vec::new();
        proof {
            assert(empty@.skip(0) =~= empty@);
        }
        Tensor::from_shape(value, empty.as_slice())
    }
}

/// Law: reshaping a view to any size-preserving shape and then back to its
/// original shape yields a view over the same buffer and base offset whose
/// traversal-order element sequence equals the original's — a reshape round
/// trip preserves logical order. The premises are exactly what `reshape`
/// ensures of each successful step.
pub proof fn law_reshape_round_trip<T>(t: Tensor<T>, t2: Tensor<T>, t3: Tensor<T>)
    requires
        t.wf(),
        t2.wf(),
        t3.wf(),
        t2.data == t.data,
        t2.base_index == t.base_index,
        t2.size == t.size,
        t3.data == t2.data,
        t3.base_index == t2.base_index,
        t3.size == t2.size,
        t3.shape@ == t.shape@,
    ensures
        t3.elems() == t.elems(),
{
}

/// Law: traversal order is row-major with the last axis fastest. A full
/// in-range index selects the element at traversal position
/// `flat_offset(idx, shape, rank)` — a weighted sum in which the last
/// dimension's weight (stride) is 1 — and that position is within the view.
pub proof fn law_row_major_position<T>(t: Tensor<T>, idx: Seq<usize>)
    requires
        t.wf(),
        idx.len() == t.shape@.len(),
        forall|j: int| 0 <= j < idx.len() ==> idx[j] < t.shape@[j],
    ensures
        0 <= flat_offset(idx, t.shape@, idx.len() as int) < t.size,
        t.elems()[flat_offset(idx, t.shape@, idx.len() as int)] == t.data@[t.base_index
            + flat_offset(idx, t.shape@, idx.len() as int)],
        idx.len() >= 1 ==> stride_at(t.shape@, idx.len() - 1) == 1,
{
    let rank = idx.len() as int;
    lemma_flat_offset_bound(idx, t.shape@, rank);
    assert(t.shape@.skip(rank) =~= Seq::<usize>::empty());
    assert(shape_size(Seq::<usize>::empty()) == 1);
}

impl Tensor<i64> {
    /// `n` evenly spaced values starting exactly at `x0`: element `i` is
    /// `x0 + i * step` with `step = (xend - x0) / n` in truncating integer
    /// division, so `xend` itself is not reached. Every produced value must
    /// lie in the element type's range.
    pub fn linspace(x0: i64, xend: i64, n: u32) -> (r: Tensor<i64>)
        requires
            n >= 1,
            i64::MIN <= xend - x0 <= i64::MAX,
            forall|i: int|
                0 <= i < n ==> i64::MIN <= #[trigger] linspace_at(
                    x0 as int,
                    xend as int,
                    n as int,
                    i,
                ) <= i64::MAX,
        ensures
            r.wf(),
            r.base_index == 0,
            r.size == n,
            r.shape@.len() == 1 && r.shape@[0] == n,
            r.data@.len() == n,
            forall|i: int|
                0 <= i < n ==> r.data@[i] == #[trigger] linspace_at(
                    x0 as int,
                    xend as int,
                    n as int,
                    i,
                ),
            r.data@[0] == x0,
    {
        let diff = xend - x0;
        let n64: i64 = n as i64;
        proof {
            if diff >= 0 {
                vstd::arithmetic::div_mod::lemma_div_pos_is_pos(diff as int, n64 as int);
                vstd::arithmetic::div_mod::lemma_div_nonincreasing(diff as int, n64 as int);
            } else {
                vstd::arithmetic::div_mod::lemma_div_pos_is_pos(-(diff as int), n64 as int);
                vstd::arithmetic::div_mod::lemma_div_nonincreasing(-(diff as int), n64 as int);
            }
        }
        let dx = match diff.checked_div(n64) {
            Some(q) => q,
            None => unreached(),
        };
        let ghost step = linspace_step(x0 as int, xend as int, n as int);
        proof {
            assert(dx == step);
        }
        let mut values: Vec<i64> = Vec::with_capacity(n as usize);
        let mut i: u32 = 0;
        while i < n
            invariant
                i <= n,
                values@.len() == i,
                dx == step,
                step == linspace_step(x0 as int, xend as int, n as int),
                forall|j: int|
                    0 <= j < n ==> i64::MIN <= #[trigger] linspace_at(
                        x0 as int,
                        xend as int,
                        n as int,
                        j,
                    ) <= i64::MAX,
                forall|j: int|
                    0 <= j < i ==> values@[j] == #[trigger] linspace_at(
                        x0 as int,
                        xend as int,
                        n as int,
                        j,
                    ),
            decreases n - i,
        {
            proof {
                assert((i as int) * (dx as int) <= 0x1_0000_0000 * 0x8000_0000_0000_0000 && (
                i as int) * (dx as int) >= -(0x1_0000_0000 * 0x8000_0000_0000_0000))
                    by (nonlinear_arith)
                    requires
                        0 <= i as int <= 0x1_0000_0000,
                        -0x8000_0000_0000_0000 <= dx as int <= 0x8000_0000_0000_0000,
                ;
            }
            let v128: i128 = (x0 as i128) + (i as i128) * (dx as i128);
            proof {
                assert(v128 == linspace_at(x0 as int, xend as int, n as int, i as int));
            }
            values.push(v128 as i64);
            i += 1;
        }
        proof {
            assert(linspace_at(x0 as int, xend as int, n as int, 0) == x0);
        }
        Tensor::from_iter(values)
    }
}

} // verus!
