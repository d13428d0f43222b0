use one_bit_llm::matrix::{Matrix, MatrixError};
use one_bit_llm::numeric::{checked_power, Numeric};

fn m32(rows: usize, cols: usize, data: Vec<u32>) -> Matrix<u32> {
    Matrix { rows, cols, data }
}

fn same(a: &Matrix<u32>, b: &Matrix<u32>) -> bool {
    a.rows == b.rows && a.cols == b.cols && a.data == b.data
}

#[test]
fn new_fills_every_entry() {
    let m = Matrix::new(2, 3, 7u32);
    assert_eq!(m.rows, 2);
    assert_eq!(m.cols, 3);
    assert_eq!(m.data, vec![7; 6]);
}

#[test]
fn new_with_no_rows_is_empty() {
    let m = Matrix::new(0, 4, 1u8);
    assert_eq!(m.rows, 0);
    assert_eq!(m.cols, 4);
    assert!(m.data.is_empty());
}

#[test]
fn get_reads_row_major() {
    let m = m32(2, 3, vec![1, 2, 3, 4, 5, 6]);
    assert_eq!(m.get(0, 0), 1);
    assert_eq!(m.get(0, 2), 3);
    assert_eq!(m.get(1, 0), 4);
    assert_eq!(m.get(1, 2), 6);
}

#[test]
fn set_writes_one_entry() {
    let mut m = Matrix::new(2, 2, 0u32);
    m.set(1, 0, 9);
    assert_eq!(m.data, vec![0, 0, 9, 0]);
    assert_eq!(m.get(1, 0), 9);
}

#[test]
fn add_is_elementwise() {
    let a = m32(2, 2, vec![1, 2, 3, 4]);
    let b = m32(2, 2, vec![10, 20, 30, 40]);
    let c = a.add(b).unwrap();
    assert_eq!(c.data, vec![11, 22, 33, 44]);
}

#[test]
fn add_commutes() {
    let a = m32(2, 3, vec![1, 5, 9, 2, 6, 0]);
    let b = m32(2, 3, vec![4, 4, 1, 7, 3, 8]);
    let ab = a.clone().add(b.clone()).unwrap();
    let ba = b.add(a).unwrap();
    assert!(same(&ab, &ba));
}

#[test]
fn add_associates() {
    let a = m32(1, 3, vec![1, 2, 3]);
    let b = m32(1, 3, vec![10, 0, 7]);
    let c = m32(1, 3, vec![5, 5, 5]);
    let left = a.clone().add(b.clone()).unwrap().add(c.clone()).unwrap();
    let right = a.add(b.add(c).unwrap()).unwrap();
    assert!(same(&left, &right));
    assert_eq!(left.data, vec![16, 7, 15]);
}

#[test]
fn add_overflow_is_out_of_range() {
    let a = Matrix { rows: 1, cols: 2, data: vec![250u8, 1] };
    let b = Matrix { rows: 1, cols: 2, data: vec![10u8, 1] };
    assert!(matches!(a.add(b), Err(MatrixError::OutOfRange)));
}

#[test]
fn add_mismatched_shapes_fails() {
    let a = m32(2, 2, vec![1, 2, 3, 4]);
    let b = m32(1, 4, vec![1, 2, 3, 4]);
    assert!(matches!(a.add(b), Err(MatrixError::DimensionMismatch)));
}

#[test]
fn sub_is_elementwise() {
    let a = m32(1, 3, vec![9, 8, 7]);
    let b = m32(1, 3, vec![1, 8, 2]);
    assert_eq!(a.sub(b).unwrap().data, vec![8, 0, 5]);
}

#[test]
fn sub_below_zero_is_out_of_range() {
    let a = m32(1, 2, vec![1, 5]);
    let b = m32(1, 2, vec![0, 6]);
    assert!(matches!(a.sub(b), Err(MatrixError::OutOfRange)));
}

#[test]
fn sub_mismatched_shapes_fails() {
    let a = m32(2, 1, vec![1, 2]);
    let b = m32(1, 2, vec![1, 2]);
    assert!(matches!(a.sub(b), Err(MatrixError::DimensionMismatch)));
}

#[test]
fn mul_gives_matrix_product() {
    let a = m32(2, 3, vec![1, 2, 3, 4, 5, 6]);
    let b = m32(3, 2, vec![7, 8, 9, 10, 11, 12]);
    let c = a.mul(b).unwrap();
    assert_eq!(c.rows, 2);
    assert_eq!(c.cols, 2);
    assert_eq!(c.data, vec![58, 64, 139, 154]);
}

#[test]
fn mul_row_by_column() {
    let a = m32(1, 3, vec![1, 2, 3]);
    let b = m32(3, 1, vec![4, 5, 6]);
    assert_eq!(a.clone().mul(b.clone()).unwrap().data, vec![32]);
    let outer = b.mul(a).unwrap();
    assert_eq!(outer.rows, 3);
    assert_eq!(outer.cols, 3);
    assert_eq!(outer.data, vec![4, 8, 12, 5, 10, 15, 6, 12, 18]);
}

#[test]
fn mul_associates() {
    let a = m32(2, 2, vec![1, 2, 3, 4]);
    let b = m32(2, 3, vec![0, 1, 2, 3, 4, 5]);
    let c = m32(3, 1, vec![2, 1, 3]);
    let left = a.clone().mul(b.clone()).unwrap().mul(c.clone()).unwrap();
    let right = a.mul(b.mul(c).unwrap()).unwrap();
    assert!(same(&left, &right));
    assert_eq!(left.data, vec![57, 121]);
}

#[test]
fn transpose_of_product_reverses_order() {
    let a = m32(2, 3, vec![1, 2, 3, 4, 5, 6]);
    let b = m32(3, 2, vec![7, 8, 9, 10, 11, 12]);
    let left = a.clone().mul(b.clone()).unwrap().transpose();
    let right = b.transpose().mul(a.transpose()).unwrap();
    assert!(same(&left, &right));
    assert_eq!(left.data, vec![58, 139, 64, 154]);
}

#[test]
fn mul_needs_inner_sizes_to_agree() {
    let a = m32(2, 3, vec![1, 2, 3, 4, 5, 6]);
    let b = m32(2, 3, vec![1, 2, 3, 4, 5, 6]);
    assert!(matches!(a.mul(b), Err(MatrixError::DimensionMismatch)));
}

#[test]
fn mul_overflow_is_out_of_range() {
    let a = Matrix { rows: 1, cols: 2, data: vec![10u8, 10] };
    let b = Matrix { rows: 2, cols: 1, data: vec![10u8, 20] };
    assert!(matches!(a.mul(b), Err(MatrixError::OutOfRange)));
}

#[test]
fn mul_with_empty_inner_dimension_is_zero() {
    let a = m32(2, 0, vec![]);
    let b = m32(0, 2, vec![]);
    assert_eq!(a.mul(b).unwrap().data, vec![0, 0, 0, 0]);
}

#[test]
fn div_is_elementwise() {
    let a = m32(1, 3, vec![9, 7, 0]);
    let b = m32(1, 3, vec![3, 2, 5]);
    assert_eq!(a.div(b).unwrap().data, vec![3, 3, 0]);
}

#[test]
fn div_mismatched_shapes_fails() {
    let a = m32(1, 3, vec![9, 7, 0]);
    let b = m32(3, 1, vec![3, 2, 5]);
    assert!(matches!(a.div(b), Err(MatrixError::DimensionMismatch)));
}

#[test]
fn transpose_swaps_rows_and_columns() {
    let a = m32(2, 3, vec![1, 2, 3, 4, 5, 6]);
    let t = a.transpose();
    assert_eq!(t.rows, 3);
    assert_eq!(t.cols, 2);
    assert_eq!(t.data, vec![1, 4, 2, 5, 3, 6]);
}

#[test]
fn pow_unit_raises_every_entry() {
    let mut a = m32(1, 4, vec![0, 1, 2, 3]);
    let p = a.pow_unit(3).unwrap();
    assert_eq!(p.data, vec![0, 1, 8, 27]);
    assert_eq!(a.data, vec![0, 1, 2, 3]);
}

#[test]
fn pow_unit_zero_exponent_gives_ones() {
    let mut a = m32(1, 3, vec![0, 5, 9]);
    assert_eq!(a.pow_unit(0).unwrap().data, vec![1, 1, 1]);
}

#[test]
fn pow_unit_overflow_is_out_of_range() {
    let mut a = Matrix { rows: 1, cols: 2, data: vec![2u8, 16] };
    assert!(matches!(a.pow_unit(2), Err(MatrixError::OutOfRange)));
}

#[test]
fn pow_matrix_uses_matching_exponents() {
    let mut a = m32(1, 3, vec![2, 3, 10]);
    let e = m32(1, 3, vec![10, 2, 0]);
    assert_eq!(a.pow_matrix(e).unwrap().data, vec![1024, 9, 1]);
}

#[test]
fn pow_matrix_mismatched_shapes_fails() {
    let mut a = m32(1, 3, vec![2, 3, 10]);
    let e = m32(1, 2, vec![1, 1]);
    assert!(matches!(a.pow_matrix(e), Err(MatrixError::DimensionMismatch)));
}

#[test]
fn checked_power_edges() {
    assert_eq!(checked_power(2u8, 7u8), Some(128));
    assert_eq!(checked_power(2u8, 8u8), None);
    assert_eq!(checked_power(1u8, 255u8), Some(1));
    assert_eq!(checked_power(0u32, 0u32), Some(1));
    assert_eq!(checked_power(0u32, 4000000000u32), Some(0));
    assert_eq!(checked_power(3u16, 10u16), Some(59049));
}

#[test]
fn numeric_checked_operations() {
    assert_eq!(200u8.try_add(55), Some(255));
    assert_eq!(200u8.try_add(56), None);
    assert_eq!(3u16.try_sub(4), None);
    assert_eq!(65535u16.try_mul(1), Some(65535));
    assert_eq!(17u32.quotient(5), 3);
    assert_eq!(<u32 as Numeric>::zero(), 0);
    assert_eq!(<u32 as Numeric>::one(), 1);
}

#[test]
fn scale_multiplies_every_entry() {
    let a = m32(1, 3, vec![0, 2, 5]);
    assert_eq!(a.scale(3).unwrap().data, vec![0, 6, 15]);
    let b = Matrix { rows: 1, cols: 1, data: vec![128u8] };
    assert!(matches!(b.scale(2), Err(MatrixError::OutOfRange)));
}

#[test]
fn add_column_broadcasts_over_columns() {
    let a = m32(2, 3, vec![1, 2, 3, 4, 5, 6]);
    let b = m32(2, 1, vec![10, 20]);
    assert_eq!(a.add_column(&b).unwrap().data, vec![11, 12, 13, 24, 25, 26]);
    assert!(matches!(a.add_column(&m32(1, 2, vec![1, 1])), Err(MatrixError::DimensionMismatch)));
}

#[test]
fn duplicate_copies_entries() {
    let a = m32(2, 1, vec![4, 2]);
    let b = a.duplicate();
    assert!(same(&a, &b));
}
