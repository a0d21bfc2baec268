use matrixa::Matrix;

fn im(rows: Vec<Vec<i64>>) -> Matrix<i64> {
    let mut m: Matrix<i64> = Matrix::new();
    for r in rows {
        m.push(r).unwrap();
    }
    m
}

fn rm<'a>(rows: Vec<Vec<&'a str>>) -> Matrix<&'a str> {
    let mut m: Matrix<&'a str> = Matrix::new();
    for r in rows {
        m.push(r).unwrap();
    }
    m
}

fn bm(rows: Vec<Vec<bool>>) -> Matrix<bool> {
    let mut m: Matrix<bool> = Matrix::new();
    for r in rows {
        m.push(r).unwrap();
    }
    m
}

fn sm(rows: Vec<Vec<String>>) -> Matrix<String> {
    let mut m: Matrix<String> = Matrix::new();
    for r in rows {
        m.push(r).unwrap();
    }
    m
}

#[test]
fn test_new_i32() {
    let m = Matrix::<i32>::new();
    assert_eq!(m.data.len(), 0);
}

#[test]
fn test_new_f32() {
    let m = Matrix::<f32>::new();
    assert_eq!(m.data.len(), 0);
}

#[test]
fn test_macro_with_type() {
    let m = Matrix::<f32>::new();
    assert_eq!(m.data.len(), 0);
}

#[test]
fn test_macro_with_values() {
    let m = im(vec![vec![1, 2, 3, 4, 5], vec![2, 3, 4, 5, 6], vec![3, 4, 5, 6, 7]]);
    assert_eq!(m.data.len(), 3);
    assert_eq!(m.data[0].len(), 5);
    assert_eq!(m.data[2][2], 5);
}

#[test]
fn test_macro_with_str() {
    let m = rm(vec![
        vec!["abcde", "fghij", "klmn0"],
        vec!["bbcde", "matched", "olmn0"],
    ]);
    assert_eq!(m.data.len(), 2);
    assert_eq!(m.data[0].len(), 3);
    assert_eq!(m == m, true);
}

#[test]
fn test_macro_with_string() {
    let m = sm(vec![
        vec![
            String::from("abcde"),
            String::from("fghij"),
            String::from("klmn0"),
        ],
        vec![
            String::from("bbcde"),
            String::from("matched"),
            String::from("olmn0"),
        ],
    ]);
    assert_eq!(m.data.len(), 2);
    assert_eq!(m.data[0].len(), 3);
}

#[test]
fn test_macro_with_bool() {
    let m = bm(vec![
        vec![true, true, false, true, false],
        vec![true, false, false, true, true],
        vec![false, false, true, true, true],
        vec![false, true, true, false, true],
    ]);
    assert_eq!(m.data.len(), 4);
    assert_eq!(m.data[0].len(), 5);
}

#[test]
#[should_panic]
fn test_macro_invalid_len() {
    im(vec![vec![1, 23], vec![4, 5, 6]]);
}

#[test]
fn test_eq() {
    let m = im(vec![vec![1, 2, 3, 5, 5], vec![3, 6, 1, 4, 2], vec![3, 6, 0, 1, 5]]);
    let n = im(vec![vec![1, 2, 3, 5, 5], vec![3, 6, 1, 4, 2], vec![3, 6, 0, 1, 5]]);
    assert_eq!(m.has_same_size_with(&n), true);
    assert_eq!(m == m, true);
    assert_eq!(m == n, true);
}

#[test]
fn test_ne() {
    let m = im(vec![vec![1, 2, 3, 5, 5], vec![3, 6, 1, 4, 2], vec![3, 6, 0, 1, 5]]);
    let n = im(vec![
        vec![1, 2, 3, 5, 5],
        vec![3, 6, 199293, 4, 2],
        vec![3, 6, 0, 1, 5],
    ]);
    assert_eq!(m.has_same_size_with(&n), true);
    assert_eq!(m != n, true);
}

#[test]
fn test_eq_str() {
    let m = rm(vec![
        vec!["abcde", "fghij", "klmn0"],
        vec!["bbcde", "matched", "olmn0"],
    ]);
    let n = rm(vec![
        vec!["abcde", "fghij", "klmn0"],
        vec!["bbcde", "matched", "olmn0"],
    ]);
    let p = rm(vec![
        vec!["abcde", "fghij", "klmn0"],
        vec!["bbcde", "NOT matched", "olmn0"],
    ]);
    assert_eq!(m.data.len(), 2);
    assert_eq!(m.data[0].len(), 3);
    assert_eq!(m == m, true);

    assert_eq!(m.has_same_size_with(&n), true);
    assert_eq!(m == n, true);
    assert_eq!(m != n, false);
    assert_eq!(m == p, false);
    assert_eq!(m != p, true);
    assert_eq!(n == p, false);
    assert_eq!(n != p, true);
    println!("{}", m.data[0][0].contains("a"))
}

#[test]
fn test_eq_string() {
    let m = rm(vec![
        vec!["abcde", "fghij", "klmn0"],
        vec!["bbcde", "matched", "olmn0"],
    ])
    .to_string();
    let n = rm(vec![
        vec!["abcde", "fghij", "klmn0"],
        vec!["bbcde", "matched", "olmn0"],
    ])
    .to_string();
    let p = rm(vec![
        vec!["abcde", "fghij", "klmn0"],
        vec!["bbcde", "NOT matched", "olmn0"],
    ])
    .to_string();
    assert_eq!(m == m, true);

    assert_eq!(m.has_same_size_with(&n), true);
    assert_eq!(m == n, true);
    assert_eq!(m != n, false);
    assert_eq!(m == p, false);
    assert_eq!(m != p, true);
    assert_eq!(n == p, false);
    assert_eq!(n != p, true);
    println!("{}", m.data[0][0].contains("a"))
}

#[test]
fn test_assign() {
    let m = im(vec![vec![1, 2, 3], vec![4, 5, 6], vec![7, 8, 9]]);
    let n = m.clone();
    let o = n;
    assert_eq!(m == o, true);
}

#[test]
fn test_assign_str() {
    let m = rm(vec![
        vec!["新宿", "渋谷", "代々木", "神田"],
        vec!["吉祥寺", "飯田橋", "阿佐ヶ谷", "白金"],
        vec!["保土ヶ谷", "荻窪", "墨田", "北千住"],
    ]);
    let n = m.clone();
    let o = n;
    assert_eq!(m == o, true);
}

#[test]
#[should_panic]
fn test_is_square_error() {
    let m = im(vec![vec![1, 2, 3, 4, 5], vec![2, 3, 4, 5, 6], vec![3, 4, 5, 6, 7]]);
    m.is_square().unwrap();
}

#[test]
fn test_integrity() {
    let m = im(vec![vec![1, 2, 3, 4, 5], vec![2, 3, 4, 5, 6], vec![3, 4, 5, 6, 7]]);
    m.integrity_check().unwrap();
}

#[test]
#[should_panic]
fn test_integrity_error_zero() {
    let m = Matrix::<i32>::new();
    m.integrity_check().unwrap();
}

#[test]
#[should_panic]
fn test_integrity_error_corrupted() {
    let mut m = Matrix::<i32>::new();
    m.data.push(vec![1, 2, 3]);
    m.data.push(vec![1, 2, 3, 4, 5]);
    m.integrity_check().unwrap();
}

#[test]
fn core_test_push() {
    let mut m = Matrix::<i32>::new();
    m.push(vec![1, 2]).unwrap();
    m.push(vec![3, 4]).unwrap();
}

#[test]
#[should_panic]
fn test_push_unmatched_len() {
    let mut m = Matrix::<i32>::new();
    m.push(vec![1, 2, 3]).unwrap();
    m.push(vec![1]).unwrap();
}

#[test]
fn test_row() {
    let m = im(vec![vec![1, 2, 3, 4, 5], vec![2, 3, 4, 5, 6], vec![3, 4, 5, 6, 7]]);
    assert_eq!(m.row(1)[2], 4);
    assert_eq!(m.row(0)[1], m.row(1)[0]);
}

#[test]
#[should_panic]
fn test_row_error() {
    let m = im(vec![vec![1, 2, 3, 4, 5], vec![2, 3, 4, 5, 6], vec![3, 4, 5, 6, 7]]);
    m.row(5);
}

#[test]
fn test_col() {
    let m = im(vec![vec![1, 2, 3, 4, 5], vec![2, 3, 4, 5, 6], vec![3, 4, 5, 6, 7]]);
    assert_eq!(m.col(1)[1], 3);
    assert_eq!(m.col(1)[2], m.col(3)[0]);
}

#[test]
fn test_rows() {
    let m = im(vec![vec![1, 2, 3, 4, 5], vec![2, 3, 4, 5, 6], vec![3, 4, 5, 6, 7]]);
    assert_eq!(m.rows(), 3);
}

#[test]
fn test_cols() {
    let m = im(vec![vec![1, 2, 3, 4, 5], vec![2, 3, 4, 5, 6], vec![3, 4, 5, 6, 7]]);
    assert_eq!(m.cols(), 5);
}

#[test]
#[should_panic]
fn test_col_error() {
    let m = im(vec![vec![1, 2, 3, 4, 5], vec![2, 3, 4, 5, 6], vec![3, 4, 5, 6, 7]]);
    m.row(4);
}

#[test]
fn test_row_replace() {
    let mut a = im(vec![vec![1, 2, 3, 4, 5], vec![2, 3, 4, 5, 6], vec![3, 4, 5, 6, 7]]);
    let p0 = vec![1, 2, 3, 4, 5];
    let p2 = vec![3, 4, 5, 6, 7];
    for i in 0..a.data[0].len() {
        assert_eq!(a.data[0][i], p0[i]);
        assert_eq!(a.data[2][i], p2[i]);
    }

    a.row_replace(0, 2).unwrap();
    for i in 0..a.data[0].len() {
        assert_eq!(a.data[0][i], p2[i]);
        assert_eq!(a.data[2][i], p0[i]);
    }
}

#[test]
fn test_col_replace() {
    let mut m = im(vec![vec![1, 2, 3, 4, 5], vec![2, 3, 4, 5, 6], vec![3, 4, 5, 6, 7]]);
    let p0 = vec![1, 2, 3];
    let p2 = vec![3, 4, 5];
    for i in 0..m.data.len() {
        assert_eq!(m.data[i][0], p0[i]);
        assert_eq!(m.data[i][2], p2[i]);
    }

    m.col_replace(0, 2).unwrap();
    for i in 0..m.data.len() {
        assert_eq!(m.data[i][0], p2[i]);
        assert_eq!(m.data[i][2], p0[i]);
    }
}

#[test]
fn test_transpose() {
    let mut m = im(vec![vec![1, 2, 3], vec![3, 4, 5], vec![5, 6, 7]]);
    let res = im(vec![vec![1, 3, 5], vec![2, 4, 6], vec![3, 5, 7]]);
    m.transpose();
    for i in 0..m.data.len() {
        for j in 0..m.data[0].len() {
            assert_eq!(m.data[i][j], res.data[i][j]);
        }
    }
}
