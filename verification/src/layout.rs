//! The shape/stride calculator: row-major sizes, strides and flat offsets,
//! as pure functions over an ordered sequence of dimension extents.

use vstd::prelude::*;

verus! {

/// Total element count of a shape: the product of its extents.
/// The empty shape (rank 0) has size 1: a scalar occupies one slot.
pub open spec fn shape_size(shape: Seq<usize>) -> int
    decreases shape.len(),
{
    if shape.len() == 0 {
        1
    } else {
        shape[0] * shape_size(shape.drop_first())
    }
}

/// Row-major stride of dimension `d`: the product of the extents to its
/// right. The rightmost dimension has stride 1.
pub open spec fn stride_at(shape: Seq<usize>, d: int) -> int {
    shape_size(shape.skip(d + 1))
}

/// Flat-offset contribution of the first `k` entries of a partial index:
/// the sum over `j < k` of `idx[j] * stride_at(shape, j)`.
pub open spec fn flat_offset(idx: Seq<usize>, shape: Seq<usize>, k: int) -> int
    decreases k,
{
    if k <= 0 {
        0
    } else {
        flat_offset(idx, shape, k - 1) + idx[k - 1] * stride_at(shape, k - 1)
    }
}

pub proof fn lemma_shape_size_nonneg(shape: Seq<usize>)
    ensures
        shape_size(shape) >= 0,
    decreases shape.len(),
{
    if shape.len() > 0 {
        lemma_shape_size_nonneg(shape.drop_first());
        let h = shape[0] as int;
        let t = shape_size(shape.drop_first());
        assert(h * t >= 0) by (nonlinear_arith)
            requires
                h >= 0,
                t >= 0,
        ;
    }
}

/// Peeling one extent off the front of a suffix: the size of the suffix from
/// `d` is the extent at `d` times the size of the suffix from `d + 1`.
pub proof fn lemma_shape_size_skip_unfold(shape: Seq<usize>, d: int)
    requires
        0 <= d < shape.len(),
    ensures
        shape_size(shape.skip(d)) == shape[d] * shape_size(shape.skip(d + 1)),
{
    let s = shape.skip(d);
    assert(s.len() > 0);
    assert(s[0] == shape[d]);
    assert(s.drop_first() =~= shape.skip(d + 1));
}

/// A shape has positive size exactly when every extent is positive.
pub proof fn lemma_shape_size_pos(shape: Seq<usize>)
    ensures
        (forall|j: int| 0 <= j < shape.len() ==> shape[j] >= 1) <==> shape_size(shape) >= 1,
    decreases shape.len(),
{
    if shape.len() == 0 {
    } else {
        let t = shape.drop_first();
        lemma_shape_size_pos(t);
        lemma_shape_size_nonneg(t);
        let h = shape[0] as int;
        let ts = shape_size(t);
        if forall|j: int| 0 <= j < shape.len() ==> shape[j] >= 1 {
            assert forall|j: int| 0 <= j < t.len() implies t[j] >= 1 by {
                assert(t[j] == shape[j + 1]);
            }
            assert(h * ts >= 1) by (nonlinear_arith)
                requires
                    h >= 1,
                    ts >= 1,
            ;
        }
        if shape_size(shape) >= 1 {
            assert(h >= 1 && ts >= 1) by (nonlinear_arith)
                requires
                    h >= 0,
                    ts >= 0,
                    h * ts >= 1,
            ;
            assert forall|j: int| 0 <= j < shape.len() implies shape[j] >= 1 by {
                if j > 0 {
                    assert(shape[j] == t[j - 1]);
                }
            }
        }
    }
}

/// In-bounds indices produce in-bounds offsets: when every consumed index is
/// below its extent, the accumulated offset leaves room for the whole
/// residual block.
pub proof fn lemma_flat_offset_bound(idx: Seq<usize>, shape: Seq<usize>, k: int)
    requires
        0 <= k <= shape.len(),
        k <= idx.len(),
        forall|j: int| 0 <= j < k ==> idx[j] < shape[j],
    ensures
        0 <= flat_offset(idx, shape, k),
        flat_offset(idx, shape, k) + shape_size(shape.skip(k)) <= shape_size(shape),
    decreases k,
{
    if k == 0 {
        assert(shape.skip(0) =~= shape);
    } else {
        lemma_flat_offset_bound(idx, shape, k - 1);
        lemma_shape_size_skip_unfold(shape, k - 1);
        lemma_shape_size_nonneg(shape.skip(k));
        let c = idx[k - 1] as int;
        let e = shape[k - 1] as int;
        let w = shape_size(shape.skip(k));
        assert(0 <= c * w && c * w <= (e - 1) * w) by (nonlinear_arith)
            requires
                0 <= c,
                c <= e - 1,
                w >= 0,
        ;
        assert((e - 1) * w == e * w - w) by (nonlinear_arith);
    }
}

/// An all-zero index resolves to offset 0.
pub proof fn lemma_flat_offset_zeros(idx: Seq<usize>, shape: Seq<usize>, k: int)
    requires
        forall|j: int| 0 <= j < k ==> idx[j] == 0,
    ensures
        flat_offset(idx, shape, k) == 0,
    decreases k,
{
    if k > 0 {
        lemma_flat_offset_zeros(idx, shape, k - 1);
    }
}

/// The flat offset depends on an index entry linearly, with that dimension's
/// stride as the coefficient.
pub proof fn lemma_flat_offset_update(idx: Seq<usize>, shape: Seq<usize>, k: int, d: int, x: usize)
    requires
        0 <= d < k,
        k <= idx.len(),
    ensures
        flat_offset(idx.update(d, x), shape, k) == flat_offset(idx, shape, k) + (x - idx[d])
            * stride_at(shape, d),
    decreases k,
{
    let u = idx.update(d, x);
    if k - 1 == d {
        lemma_flat_offset_agree(idx, u, shape, k - 1);
        let w = stride_at(shape, d);
        assert((x as int) * w - (idx[d] as int) * w == (x - idx[d]) * w) by (nonlinear_arith);
    } else {
        lemma_flat_offset_update(idx, shape, k - 1, d, x);
        assert(u[k - 1] == idx[k - 1]);
    }
}

/// Two indices that agree on the consumed prefix resolve to the same offset.
pub proof fn lemma_flat_offset_agree(idx1: Seq<usize>, idx2: Seq<usize>, shape: Seq<usize>, k: int)
    requires
        forall|j: int| 0 <= j < k ==> idx1[j] == idx2[j],
    ensures
        flat_offset(idx1, shape, k) == flat_offset(idx2, shape, k),
    decreases k,
{
    if k > 0 {
        lemma_flat_offset_agree(idx1, idx2, shape, k - 1);
    }
}

/// Computes `(size, strides)` for a shape in row-major order: scanning the
/// extents from last to first, each dimension's stride is the running product
/// of the extents to its right, and the final product is the size. Returns
/// `None` when some suffix product does not fit in `usize` (no such view can
/// carry its strides).
pub fn get_size_and_strides(shape: &[usize]) -> (r: Option<(usize, Vec<usize>)>)
    ensures
        r is Some <==> (forall|k: int|
            0 <= k <= shape@.len() ==> shape_size(#[trigger] shape@.skip(k)) <= usize::MAX),
        r matches Some((size, strides)) ==> {
            &&& size == shape_size(shape@)
            &&& strides@.len() == shape@.len()
            &&& forall|d: int| 0 <= d < shape@.len() ==> strides@[d] == stride_at(shape@, d)
        },
{
    let n = shape.len();
    let mut strides: Vec<usize> = vec![0; n];
    let mut size: usize = 1;
    let mut i = n;
    proof {
        assert(shape@.skip(n as int) =~= Seq::<usize>::empty());
    }
    while i > 0
        invariant
            i <= n,
            n == shape@.len(),
            strides@.len() == n,
            size == shape_size(shape@.skip(i as int)),
            forall|d: int| i <= d < n ==> strides@[d] == stride_at(shape@, d),
            forall|k: int| i <= k <= n ==> shape_size(#[trigger] shape@.skip(k)) <= usize::MAX,
        decreases i,
    {
        i = i - 1;
        strides[i] = size;
        proof {
            lemma_shape_size_skip_unfold(shape@, i as int);
        }
        let ext = shape[i];
        match size.checked_mul(ext) {
            Some(s) => {
                proof {
                    assert((size as int) * (ext as int) == (ext as int) * (size as int))
                        by (nonlinear_arith);
                }
                size = s;
            },
            None => {
                proof {
                    assert((size as int) * (ext as int) == (ext as int) * (size as int))
                        by (nonlinear_arith);
                    assert(shape_size(shape@.skip(i as int)) > usize::MAX);
                }
                return None;
            },
        }
    }
    proof {
        assert(shape@.skip(0) =~= shape@);
    }
    Some((size, strides))
}

} // verus!
