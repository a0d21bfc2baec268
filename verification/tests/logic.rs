use matrixa::Matrix;

fn vm(rows: Vec<Vec<bool>>) -> Matrix<bool> {
    let mut m: Matrix<bool> = Matrix::new();
    for r in rows {
        m.push(r).unwrap();
    }
    m
}

#[test]
fn test_bitand() {
    let b = vm(vec![vec![true, true], vec![false, true]]);
    let v = vm(vec![vec![false, true], vec![false, true]]);
    let res = vm(vec![vec![false, true], vec![false, true]]);
    assert_eq!((b & v) == res, true);
}

#[test]
fn test_bitor() {
    let b = vm(vec![vec![true, true], vec![false, true]]);
    let v = vm(vec![vec![false, true], vec![false, true]]);
    let res = vm(vec![vec![true, true], vec![false, true]]);
    assert_eq!((b | v) == res, true);
}

#[test]
fn test_bitxor() {
    let b = vm(vec![vec![true, true], vec![false, true]]);
    let v = vm(vec![vec![false, true], vec![false, true]]);
    let res = vm(vec![vec![true, false], vec![false, false]]);
    assert_eq!((b ^ v) == res, true);
}

#[test]
fn test_not() {
    let b = vm(vec![vec![true, true], vec![false, true]]);
    let res = vm(vec![vec![false, false], vec![true, false]]);
    assert_eq!(!b == res, true);
}
