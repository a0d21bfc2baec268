use matrixa::Matrix;

fn nm(rows: Vec<Vec<i64>>) -> Matrix<i64> {
    let mut m: Matrix<i64> = Matrix::new();
    for r in rows {
        m.push(r).unwrap();
    }
    m
}

#[test]
fn test_plus() {
    let m = nm(vec![vec![1, 2, 3], vec![4, 5, 6], vec![7, 8, 9]]);
    let n = nm(vec![vec![2, 3, 4], vec![5, 6, 7], vec![8, 9, 10]]);
    let res = nm(vec![vec![3, 5, 7], vec![9, 11, 13], vec![15, 17, 19]]);
    let e = m + n;
    assert_eq!(e == res, true)
}

#[test]
fn test_minus() {
    let m = nm(vec![vec![1, 2, 3], vec![4, 5, 6], vec![7, 8, 9]]);
    let n = nm(vec![vec![2, 3, 4], vec![5, 6, 7], vec![8, 9, 10]]);
    let res = nm(vec![vec![-1, -1, -1], vec![-1, -1, -1], vec![-1, -1, -1]]);
    let e = m - n;
    assert_eq!(e == res, true)
}

#[test]
fn test_astar() {
    let m = nm(vec![vec![1, 2, 3], vec![4, 5, 6], vec![7, 8, 9]]);
    let n = nm(vec![vec![2, 3, 4], vec![5, 6, 7], vec![8, 9, 10]]);
    let res = nm(vec![vec![36, 42, 48], vec![81, 96, 111], vec![126, 150, 174]]);
    let e = m * n;
    assert_eq!(e == res, true)
}

#[test]
fn test_add() {
    let mut m = nm(vec![vec![1, 2, 3], vec![4, 5, 6], vec![7, 8, 9]]);
    let res = nm(vec![vec![2, 3, 4], vec![5, 6, 7], vec![8, 9, 10]]);
    m.add(1);
    assert_eq!(m == res, true)
}

#[test]
fn test_sub() {
    let mut m = nm(vec![vec![1, 2, 3], vec![4, 5, 6], vec![7, 8, 9]]);
    let res = nm(vec![vec![-4, -3, -2], vec![-1, 0, 1], vec![2, 3, 4]]);
    m.sub(5);
    assert_eq!(m == res, true)
}

#[test]
fn test_mul() {
    let mut m = nm(vec![vec![1, 2, 3], vec![4, 5, 6], vec![7, 8, 9]]);
    let res = nm(vec![vec![2, 4, 6], vec![8, 10, 12], vec![14, 16, 18]]);
    m.mul(2);
    assert_eq!(m == res, true)
}

#[test]
fn test_div() {
    let mut m = nm(vec![vec![2, 4, 6], vec![8, 10, 12], vec![14, 16, 18]]);
    let res = nm(vec![vec![1, 2, 3], vec![4, 5, 6], vec![7, 8, 9]]);
    m.div(2);
    assert_eq!(m == res, true)
}

#[test]
fn test_residue() {
    let mut m = nm(vec![vec![1, 2, 3], vec![4, 5, 6], vec![-7, -8, -9]]);
    let result = nm(vec![vec![1, 0, 1], vec![0, 1, 0], vec![-1, 0, -1]]);
    m.residue(2);
    assert_eq!(m == result, true);
}

#[test]
fn test_rem() {
    let m = nm(vec![vec![1, 2, 3], vec![4, 5, 6], vec![-7, -8, -9]]);
    let other = nm(vec![vec![-7, -8, -9], vec![6, 5, 4], vec![3, 2, 1]]);
    let result = nm(vec![vec![1, 2, 3], vec![4, 0, 2], vec![-1, 0, 0]]);
    let m = m % other;
    assert_eq!(m == result, true)
}

#[test]
#[should_panic]
fn test_prod_error_unmatched() {
    let m = nm(vec![vec![1, 2, 3], vec![4, 5, 7]]);
    let n = nm(vec![vec![1, 0], vec![0, 1]]);
    m.prod(n).unwrap();
}

#[test]
#[should_panic]
fn test_prod_error_zero() {
    let m = nm(vec![vec![1, 2, 3], vec![4, 5, 7]]);
    let n = Matrix::<i64>::new();
    m.prod(n).unwrap();
}

#[test]
fn test_det_2x2() {
    let m = nm(vec![vec![1, 2], vec![-3, -4]]);
    assert_eq!(m.det().unwrap(), 2);
}

#[test]
fn test_det_1x1() {
    let m = nm(vec![vec![5]]);
    assert_eq!(m.det().unwrap(), 5);
}

#[test]
fn test_det_3x3() {
    let m = nm(vec![vec![1, 2, 3], vec![0, 1, 1], vec![1, 1, 5]]);
    assert_eq!(m.det().unwrap(), 3);
}

#[test]
#[should_panic]
fn test_det_3x2_error() {
    let m = nm(vec![vec![1, 2], vec![0, 1], vec![1, 1]]);
    m.det().unwrap();
}

#[test]
#[should_panic]
fn test_is_not_regular() {
    let m = nm(vec![vec![1, 1], vec![1, 1]]);
    m.is_regular().unwrap();
}

#[test]
fn test_adjugate() {
    let m = nm(vec![vec![1, 2, 3], vec![4, 5, 7], vec![9, 17, 13289]]);
    let res = nm(vec![vec![1, -3], vec![-9, 13289]]);
    let adj = m.adjugate(1, 1).unwrap();
    assert_eq!(adj.rows(), 2);
    assert_eq!(adj.cols(), 2);
    for i in 0..adj.rows() {
        for j in 0..adj.cols() {
            assert_eq!(adj.dump()[i][j], res.dump()[i][j]);
        }
    }
}
