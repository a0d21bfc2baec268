use matrixa::Matrix;
use matrixa::MatrixError;

fn gm(rows: Vec<Vec<i64>>) -> Matrix<i64> {
    let mut m: Matrix<i64> = Matrix::new();
    for r in rows {
        m.push(r).unwrap();
    }
    m
}

#[test]
fn test_failed_push_keeps_shape() {
    let mut m = gm(vec![vec![1, 2, 3], vec![4, 5, 6]]);
    let r = m.push(vec![7, 8]);
    assert_eq!(r.err(), Some(MatrixError::InvalidRowLength));
    assert_eq!(m.rows(), 2);
    assert_eq!(m.cols(), 3);
    assert_eq!(m == gm(vec![vec![1, 2, 3], vec![4, 5, 6]]), true);
}

#[test]
fn test_transpose_involution_rectangular() {
    let mut m = gm(vec![vec![1, 2, 3, 4], vec![5, 6, 7, 8]]);
    let original = m.clone();
    m.transpose();
    assert_eq!(m.rows(), 4);
    assert_eq!(m.cols(), 2);
    m.transpose();
    assert_eq!(m == original, true);
}

#[test]
fn test_det_4x4() {
    let m = gm(vec![
        vec![2, 3, 4, 1],
        vec![1, 2, 3, 4],
        vec![4, 1, 2, 3],
        vec![3, 2, 1, 4],
    ]);
    assert_eq!(m.det().unwrap(), 80);
}

#[test]
fn test_det_not_square_reported() {
    let m = gm(vec![vec![1, 2], vec![0, 1], vec![1, 1]]);
    assert_eq!(m.det().err(), Some(MatrixError::NotSquare));
}

#[test]
fn test_prod_values() {
    let m = gm(vec![vec![1, 2, 3], vec![4, 5, 7]]);
    let n = gm(vec![vec![1, 3], vec![5, 7], vec![10, 10]]);
    let res = gm(vec![vec![41, 47], vec![99, 117]]);
    let p = m.prod(n).unwrap();
    assert_eq!(p.rows(), 2);
    assert_eq!(p.cols(), 2);
    assert_eq!(p == res, true);
}

#[test]
fn test_prod_dimension_mismatch_reported() {
    let m = gm(vec![vec![1, 2, 3], vec![4, 5, 7]]);
    let n = gm(vec![vec![1, 0], vec![0, 1]]);
    assert_eq!(m.prod(n).err(), Some(MatrixError::DimensionMismatch));
}

#[test]
fn test_singular_matrix_reported() {
    let m = gm(vec![vec![1, 1], vec![1, 1]]);
    assert_eq!(m.det().unwrap(), 0);
    assert_eq!(m.is_regular().err(), Some(MatrixError::SingularMatrix));
    assert_eq!(m.inverse().err(), Some(MatrixError::SingularMatrix));
}

#[test]
fn test_scalar_chain() {
    let mut m = gm(vec![vec![1, 2, 3], vec![4, 5, 6], vec![7, 8, 9]]);
    m.add(1);
    let step1 = gm(vec![vec![2, 3, 4], vec![5, 6, 7], vec![8, 9, 10]]);
    assert_eq!(m == step1, true);
    m.mul(2);
    let step2 = gm(vec![vec![4, 6, 8], vec![10, 12, 14], vec![16, 18, 20]]);
    assert_eq!(m == step2, true);
}

#[test]
fn test_inverse_unimodular() {
    let m = gm(vec![vec![1, 2], vec![0, 1]]);
    let inv = m.inverse().unwrap();
    let res = gm(vec![vec![1, -2], vec![0, 1]]);
    assert_eq!(inv == res, true);
}

#[test]
fn test_inverse_times_matrix_is_identity() {
    let m = gm(vec![vec![2, 1], vec![1, 1]]);
    assert_eq!(m.det().unwrap(), 1);
    let inv = m.inverse().unwrap();
    let prod = m.prod(inv).unwrap();
    let id = gm(vec![vec![1, 0], vec![0, 1]]);
    assert_eq!(prod == id, true);
}

#[test]
fn test_hadamard_values() {
    let m = gm(vec![vec![1, 2], vec![4, 5]]);
    let n = gm(vec![vec![1, -2], vec![-3, 4]]);
    let res = gm(vec![vec![1, -4], vec![-12, 20]]);
    let p = m.hadamard(n).unwrap();
    assert_eq!(p == res, true);
}

#[test]
fn test_hadamard_shape_mismatch_reported() {
    let m = gm(vec![vec![1, 2], vec![4, 5]]);
    let n = gm(vec![vec![1, -2, 3], vec![-3, 4, 5]]);
    assert_eq!(m.hadamard(n).err(), Some(MatrixError::ShapeMismatch));
}

#[test]
fn test_sum_shape_mismatch_reported() {
    let m = gm(vec![vec![1, 2], vec![4, 5]]);
    let n = gm(vec![vec![1, 2, 3], vec![4, 5, 6]]);
    assert_eq!(m.sum(&n).err(), Some(MatrixError::ShapeMismatch));
    assert_eq!(m.diff(&n).err(), Some(MatrixError::ShapeMismatch));
}

#[test]
fn test_empty_matrix_reported() {
    let m = Matrix::<i64>::new();
    assert_eq!(m.integrity_check().err(), Some(MatrixError::EmptyMatrix));
    assert_eq!(m.det().err(), Some(MatrixError::EmptyMatrix));
}

#[test]
fn test_ragged_matrix_reported() {
    let mut m = Matrix::<i64>::new();
    m.data.push(vec![1, 2, 3]);
    m.data.push(vec![1, 2]);
    assert_eq!(m.integrity_check().err(), Some(MatrixError::RaggedMatrix));
    assert_eq!(m.det().err(), Some(MatrixError::RaggedMatrix));
}

#[test]
fn test_index_out_of_range_reported() {
    let mut m = gm(vec![vec![1, 2], vec![3, 4]]);
    assert_eq!(m.range_check(2, 0).err(), Some(MatrixError::IndexOutOfRange));
    assert_eq!(m.range_check(0, 2).err(), Some(MatrixError::IndexOutOfRange));
    assert_eq!(m.row_replace(0, 5).err(), Some(MatrixError::IndexOutOfRange));
    assert_eq!(m.col_replace(0, 5).err(), Some(MatrixError::IndexOutOfRange));
    assert_eq!(m == gm(vec![vec![1, 2], vec![3, 4]]), true);
}

#[test]
fn test_identity_and_trace() {
    let m = gm(vec![vec![1, 2], vec![3, 4]]);
    let id = m.identity().unwrap();
    assert_eq!(id == gm(vec![vec![1, 0], vec![0, 1]]), true);
    assert_eq!(m.tr().unwrap(), 5);
    let rect = gm(vec![vec![1, 2, 3], vec![4, 5, 6]]);
    assert_eq!(rect.identity().err(), Some(MatrixError::NotSquare));
    assert_eq!(rect.tr().err(), Some(MatrixError::NotSquare));
}

#[test]
fn test_resize_grows_with_zeros() {
    let mut m = gm(vec![vec![1]]);
    m.resize(5, 5).unwrap();
    assert_eq!(m.rows(), 5);
    assert_eq!(m.cols(), 5);
    let mut is_first = true;
    for v in m.dump() {
        for d in v {
            if is_first {
                assert_eq!(*d, 1);
                is_first = false;
            } else {
                assert_eq!(*d, 0);
            }
        }
    }
    assert_eq!(m.resize(0, 3).err(), Some(MatrixError::EmptyMatrix));
}

#[test]
fn test_set_replaces_grid() {
    let mut m = gm(vec![vec![1]]);
    let v = vec![vec![1, 2, 3], vec![1, 2, 3]];
    m.set(&v);
    for i in 0..2 {
        for j in 0..3 {
            assert_eq!(m.dump()[i][j], v[i][j]);
        }
    }
}

#[test]
fn test_negative_decimal_representation() {
    let m = gm(vec![vec![-120, 0], vec![45, -3]]);
    let s = m.to_string();
    assert_eq!(s.data[0][0].as_str(), "-120");
    assert_eq!(s.data[0][1].as_str(), "0");
    assert_eq!(s.data[1][0].as_str(), "45");
    assert_eq!(s.data[1][1].as_str(), "-3");
}

#[test]
fn test_replace_with_empty_pattern() {
    let mut s: Matrix<String> = Matrix::new();
    s.push(vec![String::from("ab")]).unwrap();
    s.replace("", "x");
    assert_eq!(s.data[0][0].as_str(), "xaxbx");
}

#[test]
fn test_scalar_division_truncates_toward_zero() {
    let mut m = gm(vec![vec![7, -7], vec![9, -9]]);
    m.div(2);
    assert_eq!(m == gm(vec![vec![3, -3], vec![4, -4]]), true);
    let mut n = gm(vec![vec![7, -7], vec![9, -9]]);
    n.div(-2);
    assert_eq!(n == gm(vec![vec![-3, 3], vec![-4, 4]]), true);
}
