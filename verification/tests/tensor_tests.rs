use tensor_core::error::TensorError;
use tensor_core::iter::{TensorIndexIterator, TensorIterator};
use tensor_core::tensor::Tensor;

fn collect(t: &Tensor<i64>) -> Vec<i64> {
    let mut it = t.iter();
    let mut v: Vec<i64> = Vec::new();
    while let Some(x) = it.next() {
        v.push(x);
    }
    v
}

#[test]
fn from_shape_fills_with_value() {
    let t = Tensor::from_shape(7i64, &[2, 3]);
    assert_eq!(t.size(), 6);
    assert_eq!(t.rank(), 2);
    assert_eq!(t.shape(), &[2, 3]);
    let v = collect(&t);
    assert_eq!(v, vec![7, 7, 7, 7, 7, 7]);
}

#[test]
fn from_shape_scalar_shape() {
    let t = Tensor::from_shape(9i64, &[]);
    assert_eq!(t.size(), 1);
    assert!(t.is_scalar());
    assert_eq!(collect(&t), vec![9]);
}

#[test]
fn reshape_round_trip_preserves_order() {
    let t = Tensor::from_array(&[1i64, 2, 3, 4, 5, 6]);
    let t2 = t.reshape(&[2, 3]).unwrap();
    let t3 = t2.reshape(&[6]).unwrap();
    assert_eq!(collect(&t3), collect(&t));
    let t4 = t2.reshape(&[3, 2]).unwrap().reshape(&[2, 3]).unwrap();
    assert_eq!(collect(&t4), collect(&t2));
}

#[test]
fn reshape_size_mismatch_fails() {
    let t = Tensor::from_array(&[1i64, 2, 3, 4, 5, 6]);
    let e = t.reshape(&[4]).unwrap_err();
    assert_eq!(e.message, "new shape cannot be of a different size");
    assert!(t.reshape(&[2, 2]).is_err());
    assert!(t.reshape(&[2, 3]).is_ok());
}

#[test]
fn get_too_many_dimensions_fails() {
    let t = Tensor::from_array(&[1i64, 2, 3, 4, 5, 6]).reshape(&[2, 3]).unwrap();
    let e = t.get(&[0, 0, 0]).unwrap_err();
    assert_eq!(e.message, "index has too many dimensions");
}

#[test]
fn get_out_of_range_fails_without_tiling() {
    let t = Tensor::from_array(&[10i64, 20, 30]);
    let e = t.get(&[5]).unwrap_err();
    assert_eq!(e.message, "index 5 is out of range for dimension 0");
}

#[test]
fn tiling_resolves_modulo_extent() {
    let t = Tensor::from_array(&[10i64, 20, 30]);
    // extent 3, index 5, tiling on: resolves as index 2
    let offset = t.get_data_index(&[5], true).unwrap();
    assert_eq!(offset, 2);
    // without tiling the same index is rejected
    assert!(t.get_data_index(&[5], false).is_err());
}

#[test]
fn tiling_multi_dimensional() {
    let t = Tensor::from_array(&[0i64, 1, 2, 3, 4, 5]).reshape(&[2, 3]).unwrap();
    // 5 % 2 == 1, 7 % 3 == 1: offset 1*3 + 1*1 == 4
    let offset = t.get_data_index(&[5, 7], true).unwrap();
    assert_eq!(offset, 4);
}

#[test]
fn traversal_is_row_major() {
    let t = Tensor::from_array(&[1i64, 2, 3, 4, 5, 6]).reshape(&[2, 3]).unwrap();
    assert_eq!(collect(&t), vec![1, 2, 3, 4, 5, 6]);
}

#[test]
fn get_yields_lower_rank_view() {
    let t = Tensor::from_array(&[1i64, 2, 3, 4, 5, 6]).reshape(&[2, 3]).unwrap();
    let row = t.get(&[1]).unwrap();
    assert_eq!(row.rank(), 1);
    assert_eq!(row.shape(), &[3]);
    assert_eq!(row.size(), 3);
    assert_eq!(collect(&row), vec![4, 5, 6]);
    let cell = t.get(&[1, 2]).unwrap();
    assert!(cell.is_scalar());
    assert_eq!(cell.size(), 1);
    assert_eq!(collect(&cell), vec![6]);
}

#[test]
fn index_iterator_offsets_of_sub_view() {
    let t = Tensor::from_array(&[1i64, 2, 3, 4, 5, 6]).reshape(&[2, 3]).unwrap();
    let row = t.get(&[1]).unwrap();
    let mut it = TensorIndexIterator::new(row);
    assert_eq!(it.next(), Some(3));
    assert_eq!(it.next(), Some(4));
    assert_eq!(it.next(), Some(5));
    assert_eq!(it.next(), None);
    assert_eq!(it.next(), None);
}

#[test]
fn iterator_of_scalar_yields_one_element() {
    let t = Tensor::scalar(42i64);
    let mut it = TensorIterator::new(t);
    assert_eq!(it.next(), Some(42));
    assert_eq!(it.next(), None);
    assert_eq!(it.next(), None);
}

#[test]
fn iterator_of_empty_tensor_yields_nothing() {
    let empty: [i64; 0] = [];
    let t = Tensor::from_array(&empty);
    assert_eq!(t.size(), 0);
    let mut it = TensorIterator::new(t);
    assert_eq!(it.next(), None);
}

#[test]
fn deep_clone_matches_traversal_and_is_independent() {
    let t = Tensor::from_array(&[1i64, 2, 3, 4, 5, 6]).reshape(&[2, 3]).unwrap();
    let row = t.get(&[1]).unwrap();
    let d = row.deep_clone();
    assert_eq!(collect(&d), vec![4, 5, 6]);
    assert_eq!(d.shape(), &[3]);
    // the source view still aliases the six-element buffer; the deep clone
    // owns a fresh buffer sized exactly to the view
    assert_eq!(row.buffer_len(), 6);
    assert_eq!(d.buffer_len(), 3);
}

#[test]
fn deep_clone_of_reshaped_view() {
    let t = Tensor::from_array(&[1i64, 2, 3, 4]).reshape(&[2, 2]).unwrap();
    let d = t.deep_clone();
    assert_eq!(collect(&d), vec![1, 2, 3, 4]);
    assert_eq!(d.shape(), &[2, 2]);
    assert_eq!(d.render(), t.render());
}

#[test]
fn flatten_gives_one_dimensional_view_in_order() {
    let t = Tensor::from_array(&[1i64, 2, 3, 4, 5, 6]).reshape(&[3, 2]).unwrap();
    let f = t.flatten().unwrap();
    assert_eq!(f.shape(), &[6]);
    assert_eq!(collect(&f), vec![1, 2, 3, 4, 5, 6]);
}

#[test]
fn reshape_of_sub_view_keeps_base_offset() {
    let t = Tensor::from_array(&[1i64, 2, 3, 4, 5, 6]).reshape(&[2, 3]).unwrap();
    let row = t.get(&[1]).unwrap();
    let col = row.reshape(&[3, 1]).unwrap();
    assert_eq!(collect(&col), vec![4, 5, 6]);
}

#[test]
fn render_two_by_two() {
    let t = Tensor::from_array(&[1i64, 2, 3, 4]).reshape(&[2, 2]).unwrap();
    assert_eq!(t.render(), "[[1, 2]\n [3, 4]]");
}

#[test]
fn render_scalar_is_bare_value() {
    assert_eq!(Tensor::scalar(5i64).render(), "5");
    assert_eq!(Tensor::scalar(-17i64).render(), "-17");
}

#[test]
fn render_one_dimensional() {
    let t = Tensor::from_array(&[1i64, 2, 3]);
    assert_eq!(t.render(), "[1, 2, 3]");
}

#[test]
fn render_three_dimensional() {
    let data: Vec<i64> = (0..8).collect();
    let t = Tensor::from_iter(data).reshape(&[2, 2, 2]).unwrap();
    assert_eq!(t.render(), "[[[0, 1]\n  [2, 3]]\n [[4, 5]\n  [6, 7]]]");
}

#[test]
fn render_negative_elements() {
    let t = Tensor::from_array(&[-1i64, 20, -300]);
    assert_eq!(t.render(), "[-1, 20, -300]");
}

#[test]
fn linspace_count_and_start() {
    let t = Tensor::<i64>::linspace(0, 10, 5);
    assert_eq!(t.size(), 5);
    // step = (10 - 0) / 5 = 2; the end is not included
    assert_eq!(collect(&t), vec![0, 2, 4, 6, 8]);
}

#[test]
fn linspace_descending_and_truncating() {
    let down = Tensor::<i64>::linspace(10, 0, 5);
    assert_eq!(collect(&down), vec![10, 8, 6, 4, 2]);
    // (3 - 0) / 2 truncates to 1
    let t = Tensor::<i64>::linspace(0, 3, 2);
    assert_eq!(collect(&t), vec![0, 1]);
}

#[test]
fn rand_builds_requested_shape() {
    let t = Tensor::<u8>::rand(&[2, 3]);
    assert_eq!(t.size(), 6);
    assert_eq!(t.shape(), &[2, 3]);
    assert_eq!(t.buffer_len(), 6);
}

#[test]
fn from_iter_wraps_vector() {
    let t = Tensor::from_iter(vec![4i64, 5, 6]);
    assert_eq!(t.rank(), 1);
    assert_eq!(t.shape(), &[3]);
    assert_eq!(collect(&t), vec![4, 5, 6]);
}

#[test]
fn render_empty_tensor_is_empty_text() {
    let empty: [i64; 0] = [];
    let t = Tensor::from_array(&empty);
    assert_eq!(t.render(), "");
}

#[test]
fn tensor_error_carries_message() {
    let e = TensorError::new("something went wrong".to_string());
    assert_eq!(e.message, "something went wrong");
}
