//! The textual renderer: nested bracketed text mimicking multi-dimensional
//! array literals, with newline-plus-indentation after every closing bracket
//! that leaves brackets open.

use crate::layout::{lemma_shape_size_pos, shape_size, stride_at};
use crate::tensor::{rc_as_ref, Tensor};
use crate::text::{int_str, push_i64_str};
use vstd::prelude::*;
use vstd::string::StringExecFns;

verus! {

/// How many of the first `k` strides divide `i`: the number of dimension
/// boundaries (other than the outermost) that fall on flat position `i`.
pub open spec fn count_div(strides: Seq<usize>, k: int, i: int) -> int
    decreases k,
{
    if k <= 0 {
        0
    } else {
        count_div(strides, k - 1, i) + if i % (strides[k - 1] as int) == 0 {
            1int
        } else {
            0
        }
    }
}

/// Brackets opening at flat position `i`: one for the whole tensor at the
/// first position, plus one per outer stride dividing `i`.
pub open spec fn open_count(t: Tensor<i64>, i: int) -> int {
    (if i == 0 {
        1int
    } else {
        0
    }) + count_div(t.strides@, t.strides@.len() - 1, i)
}

/// Brackets closing at flat position `i`: one for the whole tensor at the
/// last position, plus one per outer stride dividing `i + 1`.
pub open spec fn close_count(t: Tensor<i64>, i: int) -> int {
    (if i + 1 == t.size {
        1int
    } else {
        0
    }) + count_div(t.strides@, t.strides@.len() - 1, i + 1)
}

/// Nesting depth after position `i` has been emitted: the brackets still
/// open there — one per outer stride not dividing `i + 1`, plus the
/// outermost bracket unless `i` was the last position.
pub open spec fn depth_after(t: Tensor<i64>, i: int) -> int {
    (t.strides@.len() - 1 - count_div(t.strides@, t.strides@.len() - 1, i + 1)) + if i + 1
        == t.size {
        0int
    } else {
        1
    }
}

/// `n` copies of the character `c`.
pub open spec fn repeat_char(c: char, n: int) -> Seq<char>
    decreases n,
{
    if n <= 0 {
        Seq::empty()
    } else {
        repeat_char(c, n - 1) + seq![c]
    }
}

/// The element at flat position `i` of the view, as an integer.
pub open spec fn elem_at(t: Tensor<i64>, i: int) -> int {
    t.data@[t.base_index + i] as int
}

/// The text emitted for flat position `i`: opening brackets, the element,
/// a comma separator when nothing closes, closing brackets, and — when a
/// bracket closed and depth remains — a newline with one space per open
/// bracket.
pub open spec fn render_seg(t: Tensor<i64>, i: int) -> Seq<char> {
    let o = open_count(t, i);
    let c = close_count(t, i);
    let d = depth_after(t, i);
    repeat_char('[', o) + int_str(elem_at(t, i)) + (if c == 0 {
        ", "@
    } else {
        Seq::<char>::empty()
    }) + repeat_char(']', c) + (if c > 0 && d > 0 {
        seq!['\n'] + repeat_char(' ', d)
    } else {
        Seq::<char>::empty()
    })
}

/// The text emitted for flat positions `i ..` of a rank-at-least-1 view.
pub open spec fn render_from(t: Tensor<i64>, i: int) -> Seq<char>
    decreases t.size - i,
    when 0 <= i
{
    if i < 0 || i >= t.size {
        Seq::empty()
    } else {
        render_seg(t, i) + render_from(t, i + 1)
    }
}

/// The full rendering: a scalar as its bare value, anything else as its
/// positions in row-major order with bracketing as above.
pub open spec fn render_spec(t: Tensor<i64>) -> Seq<char> {
    if t.shape@.len() == 0 {
        int_str(elem_at(t, 0))
    } else {
        render_from(t, 0)
    }
}

proof fn lemma_count_div_bounds(strides: Seq<usize>, k: int, i: int)
    requires
        0 <= k,
    ensures
        0 <= count_div(strides, k, i) <= k,
    decreases k,
{
    if k > 0 {
        lemma_count_div_bounds(strides, k - 1, i);
    }
}

proof fn lemma_count_div_at_zero(strides: Seq<usize>, k: int)
    requires
        0 <= k <= strides.len(),
        forall|j: int| 0 <= j < strides.len() ==> strides[j] >= 1,
    ensures
        count_div(strides, k, 0) == k,
    decreases k,
{
    if k > 0 {
        lemma_count_div_at_zero(strides, k - 1);
        assert(0int % (strides[k - 1] as int) == 0);
    }
}

/// In a well-formed view with at least one element, every stride is
/// positive: each is a product of positive extents.
proof fn lemma_strides_pos<T>(t: Tensor<T>)
    requires
        t.wf(),
        t.size >= 1,
    ensures
        forall|d: int| 0 <= d < t.strides@.len() ==> t.strides@[d] >= 1,
{
    lemma_shape_size_pos(t.shape@);
    assert forall|d: int| 0 <= d < t.strides@.len() implies t.strides@[d] >= 1 by {
        let s = t.shape@.skip(d + 1);
        assert forall|j: int| 0 <= j < s.len() implies s[j] >= 1 by {
            assert(s[j] == t.shape@[d + 1 + j]);
        }
        lemma_shape_size_pos(s);
        assert(t.strides@[d] == stride_at(t.shape@, d));
    }
}

/// Tracking the nesting depth incrementally — adding the brackets opened and
/// subtracting those closed at each position — agrees with the closed form
/// `depth_after`, which in turn never goes negative.
proof fn lemma_depth_step(t: Tensor<i64>, i: int)
    requires
        t.wf(),
        t.shape@.len() >= 1,
        t.size >= 1,
        0 <= i < t.size,
        forall|d: int| 0 <= d < t.strides@.len() ==> t.strides@[d] >= 1,
    ensures
        (if i == 0 {
            0int
        } else {
            depth_after(t, i - 1)
        }) + open_count(t, i) - close_count(t, i) == depth_after(t, i),
        0 <= depth_after(t, i) <= t.strides@.len(),
        0 <= open_count(t, i) <= t.strides@.len(),
        0 <= close_count(t, i) <= t.strides@.len() + 1,
{
    let k = t.strides@.len() - 1;
    lemma_count_div_bounds(t.strides@, k, i);
    lemma_count_div_bounds(t.strides@, k, i + 1);
    if i == 0 {
        lemma_count_div_at_zero(t.strides@, k);
    }
}

impl Tensor<i64> {
    /// Renders the view as nested bracketed text: a scalar as its bare
    /// value; otherwise the elements in row-major order, one `[` per
    /// dimension boundary opening and one `]` per boundary closing, `, `
    /// between elements within a row, and after every closing bracket that
    /// leaves brackets open a newline plus one space per open bracket.
    pub fn render(&self) -> (r: String)
        requires
            self.wf(),
        ensures
            r@ == render_spec(*self),
    {
        let buf = rc_as_ref(&self.data);
        if self.shape.len() == 0 {
            proof {
                assert(shape_size(self.shape@) == 1);
            }
            let mut out = String::new();
            push_i64_str(&mut out, buf[self.base_index]);
            proof {
                assert(out@ =~= render_spec(*self));
            }
            return out;
        }
        let rank = self.strides.len();
        let mut out = String::new();
        let mut depth: usize = 0;
        let mut i: usize = 0;
        proof {
            if self.size > 0 {
                lemma_strides_pos(*self);
            }
        }
        while i < self.size
            invariant
                self.wf(),
                rank == self.strides@.len(),
                rank == self.shape@.len(),
                rank >= 1,
                buf@ == self.data@,
                i <= self.size,
                self.size >= 1 ==> forall|d: int| 0 <= d < rank ==> self.strides@[d] >= 1,
                out@ + render_from(*self, i as int) == render_from(*self, 0),
                depth == (if i == 0 {
                    0int
                } else {
                    depth_after(*self, i - 1)
                }),
            decreases self.size - i,
        {
            let ghost out_head = out@;
            let mut open: usize = if i == 0 {
                1
            } else {
                0
            };
            let mut close: usize = if i + 1 == self.size {
                1
            } else {
                0
            };
            let mut d: usize = 0;
            while d < rank - 1
                invariant
                    d <= rank - 1,
                    rank == self.strides@.len(),
                    rank >= 1,
                    self.wf(),
                    i < self.size,
                    forall|e: int| 0 <= e < rank ==> self.strides@[e] >= 1,
                    open == (if i == 0 {
                        1int
                    } else {
                        0
                    }) + count_div(self.strides@, d as int, i as int),
                    close == (if i + 1 == self.size {
                        1int
                    } else {
                        0
                    }) + count_div(self.strides@, d as int, i + 1),
                decreases rank - 1 - d,
            {
                proof {
                    lemma_count_div_bounds(self.strides@, d as int, i as int);
                    lemma_count_div_bounds(self.strides@, d as int, i + 1);
                }
                let s = self.strides[d];
                if i % s == 0 {
                    open += 1;
                }
                if (i + 1) % s == 0 {
                    close += 1;
                }
                d += 1;
            }
            proof {
                lemma_depth_step(*self, i as int);
                assert(open == open_count(*self, i as int));
                assert(close == close_count(*self, i as int));
            }
            push_repeat(&mut out, '[', open);
            push_i64_str(&mut out, buf[self.base_index + i]);
            if close == 0 {
                out.append(", ");
            }
            push_repeat(&mut out, ']', close);
            let depth128: u128 = depth as u128 + open as u128 - close as u128;
            proof {
                assert(depth128 == depth_after(*self, i as int));
            }
            depth = depth128 as usize;
            if close > 0 && depth > 0 {
                out.append("\n");
                proof {
                    reveal_strlit("\n");
                }
                push_repeat(&mut out, ' ', depth);
            }
            proof {
                assert(out@ =~= out_head + render_seg(*self, i as int));
                assert(out@ + render_from(*self, i + 1) =~= out_head + render_from(
                    *self,
                    i as int,
                ));
            }
            i += 1;
        }
        out
    }
}

/// Appends `n` copies of a bracket or space character to `out`.
fn push_repeat(out: &mut String, c: char, n: usize)
    requires
        c == '[' || c == ']' || c == ' ',
    ensures
        final(out)@ == old(out)@ + repeat_char(c, n as int),
{
    let mut j: usize = 0;
    while j < n
        invariant
            j <= n,
            c == '[' || c == ']' || c == ' ',
            out@ == old(out)@ + repeat_char(c, j as int),
        decreases n - j,
    {
        if c == '[' {
            out.append("[");
            proof {
                reveal_strlit("[");
                assert("["@ =~= seq![c]);
            }
        } else if c == ']' {
            out.append("]");
            proof {
                reveal_strlit("]");
                assert("]"@ =~= seq![c]);
            }
        } else {
            out.append(" ");
            proof {
                reveal_strlit(" ");
                assert(" "@ =~= seq![c]);
            }
        }
        proof {
            assert(old(out)@ + repeat_char(c, j as int) + seq![c] =~= old(out)@ + repeat_char(
                c,
                j + 1,
            ));
        }
        j += 1;
    }
}

} // verus!
