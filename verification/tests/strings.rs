use matrixa::Matrix;

fn tm<'a>(rows: Vec<Vec<&'a str>>) -> Matrix<&'a str> {
    let mut m: Matrix<&'a str> = Matrix::new();
    for r in rows {
        m.push(r).unwrap();
    }
    m
}

fn zm(rows: Vec<Vec<i64>>) -> Matrix<i64> {
    let mut m: Matrix<i64> = Matrix::new();
    for r in rows {
        m.push(r).unwrap();
    }
    m
}

fn lm(rows: Vec<Vec<bool>>) -> Matrix<bool> {
    let mut m: Matrix<bool> = Matrix::new();
    for r in rows {
        m.push(r).unwrap();
    }
    m
}

fn um(rows: Vec<Vec<usize>>) -> Matrix<usize> {
    let mut m: Matrix<usize> = Matrix::new();
    for r in rows {
        m.push(r).unwrap();
    }
    m
}

#[test]
fn test_to_string() {
    let m = zm(vec![vec![2, 2, 3], vec![4, 5, 6], vec![7, 8, 9]]);
    let res = tm(vec![
        vec!["2", "2", "3"],
        vec!["4", "5", "6"],
        vec!["7", "8", "9"],
    ]);
    let s = m.to_string();
    for i in 0..s.data.len() {
        for j in 0..s.data[i].len() {
            assert_eq!(s.data[i][j].as_str() == res.data[i][j], true);
        }
    }

    let t = res.to_string();
    for i in 0..t.data.len() {
        for j in 0..t.data[i].len() {
            assert_eq!(t.data[i][j].as_str() == res.data[i][j], true);
        }
    }
}

#[test]
fn test_contains() {
    let s = tm(vec![
        vec!["akasaka", "sakamoto", "kosaka"],
        vec!["ikasama", "isasaka", "kuwasaka"],
        vec!["kawasaki", "ishikawa", "shikamoto"],
    ])
    .to_string();
    let b = s.contains("aka");
    let res = lm(vec![
        vec![true, true, true],
        vec![false, true, true],
        vec![false, false, false],
    ]);
    for i in 0..s.data.len() {
        for j in 0..s.data[i].len() {
            println!("b: {}, res: {}", b.data[i][j], res.data[i][j]);
            assert_eq!(b.data[i][j] == res.data[i][j], true)
        }
    }
}

#[test]
fn test_starts_with() {
    let s = tm(vec![
        vec!["akasaka", "sakamoto", "kosaka"],
        vec!["ikasama", "isasaka", "kuwasaka"],
        vec!["kawasaki", "ishikawa", "shikamoto"],
    ])
    .to_string();
    let res = lm(vec![
        vec![false, false, false],
        vec![true, true, false],
        vec![false, true, false],
    ]);
    assert_eq!(s.starts_with("i") == res, true);
}

#[test]
fn test_ends_with() {
    let s = tm(vec![
        vec!["akasaka", "sakamoto", "kosaka"],
        vec!["ikasama", "isasaka", "kuwasaka"],
        vec!["kawasaki", "ishikawa", "shikamoto"],
    ])
    .to_string();
    let res = lm(vec![
        vec![true, false, true],
        vec![true, true, true],
        vec![false, true, false],
    ]);
    assert_eq!(s.ends_with("a") == res, true);
}

#[test]
fn test_is_empty() {
    let s = tm(vec![
        vec!["she", "", "is"],
        vec!["he", " ", "does"],
        vec!["them", ".", ""],
    ])
    .to_string();
    let res = lm(vec![
        vec![false, true, false],
        vec![false, false, false],
        vec![false, false, true],
    ]);
    assert_eq!(s.is_empty() == res, true);
}

#[test]
fn test_is_ascii() {
    let s = tm(vec![
        vec!["hirakawa", "ﾋﾗｶﾜ", "平川"],
        vec!["122.1", "Über", ""],
        vec!["鑛滓", "　", "🐿"],
    ])
    .to_string();
    let res = lm(vec![
        vec![true, false, false],
        vec![true, false, true],
        vec![false, false, false],
    ]);
    assert_eq!(s.is_ascii() == res, true);
}

#[test]
fn test_pop_push() {
    let mut s = tm(vec![vec!["abc", "def"], vec!["ghi", "jkl"]]).to_string();
    let res1 = tm(vec![vec!["ab", "de"], vec!["gh", "jk"]]).to_string();
    let res2 = tm(vec![vec!["abc", "dec"], vec!["ghc", "jkc"]]).to_string();
    s.pop_char();
    assert_eq!(s == res1, true);
    s.push_char('c');
    assert_eq!(s == res2, true);
}

#[test]
fn test_pop_push_str() {
    let mut s = tm(vec![
        vec!["可燃ごみ", "燃えないごみ"],
        vec!["資源ごみ", "粗大ごみ"],
    ])
    .to_string();
    let res1 = tm(vec![vec!["可燃", "燃えない"], vec!["資源", "粗大"]]).to_string();
    let res2 = tm(vec![
        vec!["可燃ツイート", "燃えないツイート"],
        vec!["資源ツイート", "粗大ツイート"],
    ])
    .to_string();
    assert_eq!(*s.pop_char().pop_char() == res1, true);
    assert_eq!(*s.push_str("ツイート") == res2, true);
}

#[test]
fn test_replace() {
    let mut s = tm(vec![
        vec!["可燃ごみ", "燃えないごみ"],
        vec!["資源ごみ", "粗大ごみ"],
    ])
    .to_string();
    let res = tm(vec![
        vec!["可燃ツイート", "燃えないツイート"],
        vec!["資源ツイート", "粗大ツイート"],
    ])
    .to_string();
    s.replace("ごみ", "ツイート");
    assert_eq!(s == res, true);
}

#[test]
fn test_to_strlen() {
    let s = tm(vec![
        vec!["hirakawa", "ﾋﾗｶﾜ", "平川"],
        vec!["122.1", "Über", ""],
        vec!["鑛滓", "　", "🍣🐿"],
    ])
    .to_string();
    let res = um(vec![vec![8, 12, 6], vec![5, 5, 0], vec![6, 3, 8]]);
    let e = s.to_strlen();
    assert_eq!(e == res, true);
}

#[test]
fn test_trim() {
    let s1 = tm(vec![
        vec![" I love ", " << penguin >> "],
        vec!["so much ", ". "],
    ]);
    let mut s2 = s1.clone().to_string();
    let mut s1 = s1.to_string();

    let res1 = tm(vec![
        vec!["I love ", "<< penguin >> "],
        vec!["so much ", ". "],
    ])
    .to_string();

    let res2 = tm(vec![vec!["I love", "<< penguin >>"], vec!["so much", "."]]).to_string();

    s1.trim_start();
    assert_eq!(s1 == res1, true);
    s1.trim_end();
    assert_eq!(s1 == res2, true);
    s2.trim();
    assert_eq!(s2 == res2, true);
}

#[test]
fn test_as_bytes() {
    let s = tm(vec![
        vec!["akasaka", "sakamoto", "kosaka"],
        vec!["ikasama", "isasaka", "kuwasaka"],
        vec!["kawasaki", "ishikawa", "shikamoto"],
    ])
    .to_string();
    let t = tm(vec![
        vec!["akasaka", "sakamoto", "kosaka"],
        vec!["ikasama", "isasaka", "kuwasaka"],
        vec!["kawasaki", "ishikawa", "shikamoto"],
    ])
    .to_string();
    assert_eq!(s.as_bytes() == t.as_bytes(), true);
}
