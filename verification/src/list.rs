//! Elementwise predicates and transforms on matrices of text.

use vstd::prelude::*;
use crate::matrix::Matrix;
use vstd::string::StringExecFns;
use vstd::string::StringExecFnsIsAscii;
use vstd::string::StrSliceExecFns;
use vstd::utf8::encode_utf8;
use vstd::utf8::is_ascii_chars;

verus! {

/// Relies on String::push: it appends the given character to the end of
/// the string.
pub assume_specification[ String::push ](s: &mut String, ch: char)
    ensures
        final(s)@ == old(s)@.push(ch),
;

/// A copy of the string without its last character; an empty string stays
/// empty.
fn chop_last(s: &String) -> (r: String)
    ensures
        s@.len() == 0 ==> r@ == s@,
        s@.len() > 0 ==> r@ == s@.subrange(0, s@.len() - 1),
{
    let n = s.as_str().unicode_len();
    if n == 0 {
        assert(s@ =~= Seq::<char>::empty());
        String::new()
    } else {
        s.as_str().substring_char(0, n - 1).to_owned()
    }
}

/// The pattern `p` occurs in `s` at character offset `k`.
pub open spec fn occurs_at(s: Seq<char>, p: Seq<char>, k: int) -> bool {
    0 <= k && k + p.len() <= s.len() && s.subrange(k, k + p.len()) == p
}

/// The pattern `p` occurs somewhere in `s`; an empty pattern occurs in
/// every string.
pub open spec fn contains_seq(s: Seq<char>, p: Seq<char>) -> bool {
    exists|k: int| occurs_at(s, p, k)
}

/// `s` begins with the pattern `p`.
pub open spec fn starts_with_seq(s: Seq<char>, p: Seq<char>) -> bool {
    p.len() <= s.len() && s.subrange(0, p.len() as int) == p
}

/// `s` ends with the pattern `p`.
pub open spec fn ends_with_seq(s: Seq<char>, p: Seq<char>) -> bool {
    p.len() <= s.len() && s.subrange(s.len() - p.len(), s.len() as int) == p
}

/// Whether the pattern matches the characters of `s` at offset `k`.
fn match_at(s: &str, n: usize, p: &str, m: usize, k: usize) -> (r: bool)
    requires
        n == s@.len(),
        m == p@.len(),
        k + m <= n,
    ensures
        r == occurs_at(s@, p@, k as int),
{
    let mut l: usize = 0;
    while l < m
        invariant
            n == s@.len(),
            m == p@.len(),
            k + m <= n,
            0 <= l <= m,
            forall|t: int| 0 <= t < l ==> s@[k + t] == p@[t],
        decreases m - l,
    {
        let a = s.get_char(k + l);
        let b = p.get_char(l);
        if a != b {
            assert(s@.subrange(k as int, k + m)[l as int] == s@[k + l]);
            return false;
        }
        l += 1;
    }
    assert(s@.subrange(k as int, k + m) =~= p@);
    true
}

/// Whether the pattern occurs anywhere in `s`, searching the characters
/// left to right.
fn str_contains(s: &str, p: &str) -> (r: bool)
    ensures
        r == contains_seq(s@, p@),
{
    let n = s.unicode_len();
    let m = p.unicode_len();
    if m > n {
        assert(forall|t: int| !occurs_at(s@, p@, t));
        return false;
    }
    if m == 0 {
        assert(s@.subrange(0, 0) =~= p@);
        assert(occurs_at(s@, p@, 0));
        return true;
    }
    let mut k: usize = 0;
    while k <= n - m
        invariant
            1 <= m <= n,
            n == s@.len(),
            m == p@.len(),
            0 <= k <= n - m + 1,
            forall|t: int| 0 <= t < k ==> !occurs_at(s@, p@, t),
        decreases n - m - k + 1,
    {
        if match_at(s, n, p, m, k) {
            return true;
        }
        k += 1;
    }
    assert(forall|t: int| occurs_at(s@, p@, t) ==> 0 <= t <= n - m);
    false
}

/// Whether `s` begins with the pattern.
fn str_starts_with(s: &str, p: &str) -> (r: bool)
    ensures
        r == starts_with_seq(s@, p@),
{
    let n = s.unicode_len();
    let m = p.unicode_len();
    if m > n {
        return false;
    }
    match_at(s, n, p, m, 0)
}

/// Whether `s` ends with the pattern.
fn str_ends_with(s: &str, p: &str) -> (r: bool)
    ensures
        r == ends_with_seq(s@, p@),
{
    let n = s.unicode_len();
    let m = p.unicode_len();
    if m > n {
        return false;
    }
    match_at(s, n, p, m, n - m)
}

/// A white-space character, as Unicode lists them.
pub open spec fn is_ws(c: char) -> bool {
    ||| 9 <= (c as u32) <= 13
    ||| c as u32 == 32
    ||| c as u32 == 0x85
    ||| c as u32 == 0xA0
    ||| c as u32 == 0x1680
    ||| 0x2000 <= (c as u32) <= 0x200A
    ||| c as u32 == 0x2028
    ||| c as u32 == 0x2029
    ||| c as u32 == 0x202F
    ||| c as u32 == 0x205F
    ||| c as u32 == 0x3000
}

/// The string without its leading white space.
pub open spec fn trim_start_seq(s: Seq<char>) -> Seq<char>
    decreases s.len(),
{
    if s.len() == 0 {
        s
    } else if is_ws(s[0]) {
        trim_start_seq(s.drop_first())
    } else {
        s
    }
}

/// The string without its trailing white space.
pub open spec fn trim_end_seq(s: Seq<char>) -> Seq<char>
    decreases s.len(),
{
    if s.len() == 0 {
        s
    } else if is_ws(s[s.len() - 1]) {
        trim_end_seq(s.drop_last())
    } else {
        s
    }
}

/// Decide white space.
fn ws_char(c: char) -> (r: bool)
    ensures
        r == is_ws(c),
{
    let v = c as u32;
    (9 <= v && v <= 13) || v == 32 || v == 0x85 || v == 0xA0 || v == 0x1680
        || (0x2000 <= v && v <= 0x200A) || v == 0x2028 || v == 0x2029
        || v == 0x202F || v == 0x205F || v == 0x3000
}

/// Dropping a fully white prefix that ends at a non-white character (or
/// at the end) is exactly what `trim_start_seq` does.
proof fn lemma_trim_start_at(s: Seq<char>, k: int)
    requires
        0 <= k <= s.len(),
        forall|t: int| 0 <= t < k ==> is_ws(#[trigger] s[t]),
        k == s.len() || !is_ws(s[k]),
    ensures
        trim_start_seq(s) == s.subrange(k, s.len() as int),
    decreases k,
{
    if k == 0 {
        assert(s.subrange(0, s.len() as int) =~= s);
    } else {
        let d = s.drop_first();
        assert(forall|t: int| 0 <= t < k - 1 ==> is_ws(#[trigger] d[t]));
        lemma_trim_start_at(d, k - 1);
        assert(d.subrange(k - 1, d.len() as int) =~= s.subrange(k,
            s.len() as int));
    }
}

/// Dropping a fully white suffix that starts after a non-white character
/// (or at the start) is exactly what `trim_end_seq` does.
proof fn lemma_trim_end_at(s: Seq<char>, e: int)
    requires
        0 <= e <= s.len(),
        forall|t: int| e <= t < s.len() ==> is_ws(#[trigger] s[t]),
        e == 0 || !is_ws(s[e - 1]),
    ensures
        trim_end_seq(s) == s.subrange(0, e),
    decreases s.len(),
{
    if e == s.len() {
        if s.len() == 0 {
            assert(s.subrange(0, 0) =~= s);
        } else {
            assert(s.subrange(0, e) =~= s);
        }
    } else {
        let d = s.drop_last();
        assert(is_ws(s[s.len() - 1]));
        assert(forall|t: int| e <= t < d.len() ==> is_ws(#[trigger] d[t]));
        lemma_trim_end_at(d, e);
        assert(d.subrange(0, e) =~= s.subrange(0, e));
    }
}

/// A copy of `s` without its leading white space.
fn str_trim_start(s: &str) -> (r: String)
    ensures
        r@ == trim_start_seq(s@),
{
    let n = s.unicode_len();
    let mut k: usize = 0;
    let mut stop = false;
    while k < n && !stop
        invariant
            n == s@.len(),
            0 <= k <= n,
            forall|t: int| 0 <= t < k ==> is_ws(#[trigger] s@[t]),
            stop ==> k < n && !is_ws(s@[k as int]),
        decreases n - k, (if stop { 0int } else { 1int }),
    {
        if ws_char(s.get_char(k)) {
            k += 1;
        } else {
            stop = true;
        }
    }
    proof {
        lemma_trim_start_at(s@, k as int);
    }
    s.substring_char(k, n).to_owned()
}

/// A copy of `s` without its trailing white space.
fn str_trim_end(s: &str) -> (r: String)
    ensures
        r@ == trim_end_seq(s@),
{
    let n = s.unicode_len();
    let mut e: usize = n;
    let mut stop = false;
    while e > 0 && !stop
        invariant
            n == s@.len(),
            0 <= e <= n,
            forall|t: int| e <= t < n ==> is_ws(#[trigger] s@[t]),
            stop ==> e > 0 && !is_ws(s@[e - 1]),
        decreases e, (if stop { 0int } else { 1int }),
    {
        if ws_char(s.get_char(e - 1)) {
            e -= 1;
        } else {
            stop = true;
        }
    }
    proof {
        lemma_trim_end_at(s@, e as int);
    }
    s.substring_char(0, e).to_owned()
}

/// `s` with every non-overlapping occurrence of `from`, found left to
/// right, replaced by `to`; an empty `from` matches at every character
/// boundary.
pub open spec fn replace_seq(s: Seq<char>, from: Seq<char>, to: Seq<char>) -> Seq<char>
    decreases s.len(),
{
    if from.len() == 0 {
        if s.len() == 0 {
            to
        } else {
            to + seq![s[0]] + replace_seq(s.drop_first(), from, to)
        }
    } else if s.len() < from.len() {
        s
    } else if s.subrange(0, from.len() as int) == from {
        to + replace_seq(s.skip(from.len() as int), from, to)
    } else {
        seq![s[0]] + replace_seq(s.drop_first(), from, to)
    }
}

/// A copy of `s` with every occurrence of `from` replaced by `to`.
fn str_replace(s: &str, from: &str, to: &str) -> (r: String)
    ensures
        r@ == replace_seq(s@, from@, to@),
{
    let n = s.unicode_len();
    let m = from.unicode_len();
    let ghost rep = replace_seq(s@, from@, to@);
    let mut res = String::new();
    let mut k: usize = 0;
    proof {
        assert(s@.skip(0) =~= s@);
        assert(res@ + replace_seq(s@, from@, to@) =~= replace_seq(s@, from@,
            to@));
    }
    if m == 0 {
        while k < n
            invariant
                n == s@.len(),
                m == from@.len(),
                m == 0,
                0 <= k <= n,
                rep == replace_seq(s@, from@, to@),
                rep == res@ + replace_seq(s@.skip(k as int), from@, to@),
            decreases n - k,
        {
            let ghost suffix = s@.skip(k as int);
            assert(suffix.len() == n - k);
            assert(replace_seq(suffix, from@, to@) == to@ + seq![suffix[0]]
                + replace_seq(suffix.drop_first(), from@, to@));
            res.append(to);
            let c = s.get_char(k);
            assert(c == suffix[0]);
            res.push(c);
            proof {
                assert(suffix.drop_first() =~= s@.skip(k + 1));
                assert(res@ + replace_seq(s@.skip(k + 1), from@, to@) =~= rep);
            }
            k += 1;
        }
        proof {
            assert(s@.skip(n as int) =~= Seq::<char>::empty());
            assert(replace_seq(s@.skip(n as int), from@, to@) == to@);
        }
        res.append(to);
        return res;
    }
    while k < n
        invariant
            n == s@.len(),
            m == from@.len(),
            m >= 1,
            0 <= k <= n,
            rep == replace_seq(s@, from@, to@),
            rep == res@ + replace_seq(s@.skip(k as int), from@, to@),
        decreases n - k,
    {
        let ghost suffix = s@.skip(k as int);
        assert(suffix.len() == n - k);
        let matched = if m <= n - k {
            match_at(s, n, from, m, k)
        } else {
            false
        };
        if matched {
            proof {
                assert(s@.subrange(k as int, k + m) == from@);
                assert(suffix.subrange(0, m as int) =~= s@.subrange(k as int,
                    k + m));
                assert(replace_seq(suffix, from@, to@) == to@ + replace_seq(
                    suffix.skip(m as int), from@, to@));
            }
            res.append(to);
            proof {
                assert(suffix.skip(m as int) =~= s@.skip(k + m));
                assert(res@ + replace_seq(s@.skip(k + m), from@, to@) =~= rep);
            }
            k += m;
        } else {
            proof {
                if m <= n - k {
                    assert(suffix.subrange(0, m as int) =~= s@.subrange(
                        k as int, k + m));
                    assert(suffix.subrange(0, m as int) != from@);
                    assert(replace_seq(suffix, from@, to@) == seq![suffix[0]]
                        + replace_seq(suffix.drop_first(), from@, to@));
                } else {
                    assert(suffix.len() < m);
                    assert(replace_seq(suffix, from@, to@) == suffix);
                    assert(suffix =~= seq![suffix[0]] + suffix.drop_first());
                    assert(replace_seq(suffix.drop_first(), from@, to@)
                        == suffix.drop_first());
                }
            }
            let c = s.get_char(k);
            assert(c == suffix[0]);
            res.push(c);
            proof {
                assert(suffix.drop_first() =~= s@.skip(k + 1));
                assert(res@ + replace_seq(s@.skip(k + 1), from@, to@) =~= rep);
            }
            k += 1;
        }
    }
    proof {
        assert(s@.skip(n as int) =~= Seq::<char>::empty());
        assert(replace_seq(s@.skip(n as int), from@, to@)
            =~= Seq::<char>::empty());
        assert(res@ =~= rep);
    }
    res
}

/// The character of a single decimal digit.
pub open spec fn digit_char(d: int) -> char
    recommends
        0 <= d <= 9,
{
    ((d + 48) as u8) as char
}

/// The decimal digits of a nonnegative number, most significant first.
pub open spec fn dec_digits(n: int) -> Seq<char>
    recommends
        n >= 0,
    decreases n,
{
    if n <= 9 {
        seq![digit_char(n)]
    } else {
        dec_digits(n / 10).push(digit_char(n % 10))
    }
}

/// The decimal representation of an integer: a minus sign for negative
/// numbers, then the digits of the magnitude.
pub open spec fn dec_str(n: int) -> Seq<char> {
    if n < 0 {
        seq!['-'] + dec_digits(-n)
    } else {
        dec_digits(n)
    }
}

/// Append the decimal digits of `m` to the string.
fn push_digits(s: &mut String, m: u64)
    ensures
        final(s)@ == old(s)@ + dec_digits(m as int),
    decreases m,
{
    if m >= 10 {
        proof {
            vstd::arithmetic::div_mod::lemma_div_decreases(m as int, 10);
            vstd::arithmetic::div_mod::lemma_div_pos_is_pos(m as int, 10);
            vstd::arithmetic::div_mod::lemma_mod_bound(m as int, 10);
        }
        push_digits(s, m / 10);
        let d: u8 = (m % 10) as u8;
        let c: char = (48 + d) as char;
        assert(c == digit_char(m as int % 10));
        s.push(c);
        proof {
            assert(final(s)@ =~= old(s)@ + dec_digits(m as int));
        }
    } else {
        let d: u8 = m as u8;
        let c: char = (48 + d) as char;
        assert(c == digit_char(m as int));
        s.push(c);
        proof {
            assert(final(s)@ =~= old(s)@ + dec_digits(m as int));
        }
    }
}

/// The decimal representation of a 64-bit integer as an owned string.
fn int_to_string(v: i64) -> (r: String)
    ensures
        r@ == dec_str(v as int),
{
    let mut s = String::new();
    if v < 0 {
        s.push('-');
        let m = crate::num::magnitude64(v);
        push_digits(&mut s, m);
        proof {
            assert(s@ =~= seq!['-'] + dec_digits(m as int));
        }
    } else {
        push_digits(&mut s, v as u64);
        proof {
            assert(s@ =~= dec_digits(v as int));
        }
    }
    s
}

impl Matrix<String> {
    /// Whether each element contains the pattern, as a matrix of truth
    /// values.
    pub fn contains(&self, pat: &str) -> (r: Matrix<bool>)
        ensures
            r.grid().len() == self.grid().len(),
            forall|i: int|
                0 <= i < self.grid().len() ==> (#[trigger] r.grid()[i]).len()
                    == self.grid()[i].len(),
            forall|i: int, j: int|
                0 <= i < self.grid().len() && 0 <= j < self.grid()[i].len()
                    ==> #[trigger] r.grid()[i][j] == contains_seq(
                    self.grid()[i][j]@, pat@),
            r.debug == false,
    {
        let mut grid: Vec<Vec<bool>> = Vec::new();
        let mut i: usize = 0;
        while i < self.data.len()
            invariant
                0 <= i <= self.grid().len(),
                grid@.len() == i,
                forall|k: int|
                    0 <= k < i ==> (#[trigger] grid@[k])@.len()
                        == self.grid()[k].len(),
                forall|k: int, j: int|
                    0 <= k < i && 0 <= j < self.grid()[k].len()
                        ==> #[trigger] grid@[k]@[j] == contains_seq(
                        self.grid()[k][j]@, pat@),
            decreases self.grid().len() - i,
        {
            let cols = self.data[i].len();
            assert(self.grid()[i as int] == self.data@[i as int]@);
            let mut line: Vec<bool> = Vec::new();
            let mut j: usize = 0;
            while j < cols
                invariant
                    i < self.grid().len(),
                    cols == self.grid()[i as int].len(),
                    self.grid()[i as int] == self.data@[i as int]@,
                    0 <= j <= cols,
                    line@.len() == j,
                    forall|l: int|
                        0 <= l < j ==> #[trigger] line@[l] == contains_seq(
                            self.grid()[i as int][l]@, pat@),
                decreases cols - j,
            {
                let v = str_contains(self.data[i][j].as_str(), pat);
                line.push(v);
                j += 1;
            }
            grid.push(line);
            i += 1;
        }
        Matrix { data: grid, debug: false }
    }

    /// Whether each element begins with the pattern, as a matrix of truth
    /// values.
    pub fn starts_with(&self, pat: &str) -> (r: Matrix<bool>)
        ensures
            r.grid().len() == self.grid().len(),
            forall|i: int|
                0 <= i < self.grid().len() ==> (#[trigger] r.grid()[i]).len()
                    == self.grid()[i].len(),
            forall|i: int, j: int|
                0 <= i < self.grid().len() && 0 <= j < self.grid()[i].len()
                    ==> #[trigger] r.grid()[i][j] == starts_with_seq(
                    self.grid()[i][j]@, pat@),
            r.debug == false,
    {
        let mut grid: Vec<Vec<bool>> = Vec::new();
        let mut i: usize = 0;
        while i < self.data.len()
            invariant
                0 <= i <= self.grid().len(),
                grid@.len() == i,
                forall|k: int|
                    0 <= k < i ==> (#[trigger] grid@[k])@.len()
                        == self.grid()[k].len(),
                forall|k: int, j: int|
                    0 <= k < i && 0 <= j < self.grid()[k].len()
                        ==> #[trigger] grid@[k]@[j] == starts_with_seq(
                        self.grid()[k][j]@, pat@),
            decreases self.grid().len() - i,
        {
            let cols = self.data[i].len();
            assert(self.grid()[i as int] == self.data@[i as int]@);
            let mut line: Vec<bool> = Vec::new();
            let mut j: usize = 0;
            while j < cols
                invariant
                    i < self.grid().len(),
                    cols == self.grid()[i as int].len(),
                    self.grid()[i as int] == self.data@[i as int]@,
                    0 <= j <= cols,
                    line@.len() == j,
                    forall|l: int|
                        0 <= l < j ==> #[trigger] line@[l] == starts_with_seq(
                            self.grid()[i as int][l]@, pat@),
                decreases cols - j,
            {
                let v = str_starts_with(self.data[i][j].as_str(), pat);
                line.push(v);
                j += 1;
            }
            grid.push(line);
            i += 1;
        }
        Matrix { data: grid, debug: false }
    }

    /// Whether each element ends with the pattern, as a matrix of truth
    /// values.
    pub fn ends_with(&self, pat: &str) -> (r: Matrix<bool>)
        ensures
            r.grid().len() == self.grid().len(),
            forall|i: int|
                0 <= i < self.grid().len() ==> (#[trigger] r.grid()[i]).len()
                    == self.grid()[i].len(),
            forall|i: int, j: int|
                0 <= i < self.grid().len() && 0 <= j < self.grid()[i].len()
                    ==> #[trigger] r.grid()[i][j] == ends_with_seq(
                    self.grid()[i][j]@, pat@),
            r.debug == false,
    {
        let mut grid: Vec<Vec<bool>> = Vec::new();
        let mut i: usize = 0;
        while i < self.data.len()
            invariant
                0 <= i <= self.grid().len(),
                grid@.len() == i,
                forall|k: int|
                    0 <= k < i ==> (#[trigger] grid@[k])@.len()
                        == self.grid()[k].len(),
                forall|k: int, j: int|
                    0 <= k < i && 0 <= j < self.grid()[k].len()
                        ==> #[trigger] grid@[k]@[j] == ends_with_seq(
                        self.grid()[k][j]@, pat@),
            decreases self.grid().len() - i,
        {
            let cols = self.data[i].len();
            assert(self.grid()[i as int] == self.data@[i as int]@);
            let mut line: Vec<bool> = Vec::new();
            let mut j: usize = 0;
            while j < cols
                invariant
                    i < self.grid().len(),
                    cols == self.grid()[i as int].len(),
                    self.grid()[i as int] == self.data@[i as int]@,
                    0 <= j <= cols,
                    line@.len() == j,
                    forall|l: int|
                        0 <= l < j ==> #[trigger] line@[l] == ends_with_seq(
                            self.grid()[i as int][l]@, pat@),
                decreases cols - j,
            {
                let v = str_ends_with(self.data[i][j].as_str(), pat);
                line.push(v);
                j += 1;
            }
            grid.push(line);
            i += 1;
        }
        Matrix { data: grid, debug: false }
    }

    /// Whether each element is the empty string, as a matrix of truth
    /// values.
    pub fn is_empty(&self) -> (r: Matrix<bool>)
        ensures
            r.grid().len() == self.grid().len(),
            forall|i: int|
                0 <= i < self.grid().len() ==> (#[trigger] r.grid()[i]).len()
                    == self.grid()[i].len(),
            forall|i: int, j: int|
                0 <= i < self.grid().len() && 0 <= j < self.grid()[i].len()
                    ==> #[trigger] r.grid()[i][j] == (self.grid()[i][j]@.len()
                    == 0),
            r.debug == false,
    {
        let mut grid: Vec<Vec<bool>> = Vec::new();
        let mut i: usize = 0;
        while i < self.data.len()
            invariant
                0 <= i <= self.grid().len(),
                grid@.len() == i,
                forall|k: int|
                    0 <= k < i ==> (#[trigger] grid@[k])@.len()
                        == self.grid()[k].len(),
                forall|k: int, j: int|
                    0 <= k < i && 0 <= j < self.grid()[k].len()
                        ==> #[trigger] grid@[k]@[j] == (self.grid()[k][j]@.len()
                        == 0),
            decreases self.grid().len() - i,
        {
            let cols = self.data[i].len();
            assert(self.grid()[i as int] == self.data@[i as int]@);
            let mut line: Vec<bool> = Vec::new();
            let mut j: usize = 0;
            while j < cols
                invariant
                    i < self.grid().len(),
                    cols == self.grid()[i as int].len(),
                    self.grid()[i as int] == self.data@[i as int]@,
                    0 <= j <= cols,
                    line@.len() == j,
                    forall|l: int|
                        0 <= l < j ==> #[trigger] line@[l]
                            == (self.grid()[i as int][l]@.len() == 0),
                decreases cols - j,
            {
                let v = self.data[i][j].as_str().is_empty();
                line.push(v);
                j += 1;
            }
            grid.push(line);
            i += 1;
        }
        Matrix { data: grid, debug: false }
    }

    /// Whether each element holds only ASCII characters, as a matrix of
    /// truth values.
    pub fn is_ascii(&self) -> (r: Matrix<bool>)
        ensures
            r.grid().len() == self.grid().len(),
            forall|i: int|
                0 <= i < self.grid().len() ==> (#[trigger] r.grid()[i]).len()
                    == self.grid()[i].len(),
            forall|i: int, j: int|
                0 <= i < self.grid().len() && 0 <= j < self.grid()[i].len()
                    ==> #[trigger] r.grid()[i][j] == is_ascii_chars(
                    self.grid()[i][j]@),
            r.debug == false,
    {
        let mut grid: Vec<Vec<bool>> = Vec::new();
        let mut i: usize = 0;
        while i < self.data.len()
            invariant
                0 <= i <= self.grid().len(),
                grid@.len() == i,
                forall|k: int|
                    0 <= k < i ==> (#[trigger] grid@[k])@.len()
                        == self.grid()[k].len(),
                forall|k: int, j: int|
                    0 <= k < i && 0 <= j < self.grid()[k].len()
                        ==> #[trigger] grid@[k]@[j] == is_ascii_chars(
                        self.grid()[k][j]@),
            decreases self.grid().len() - i,
        {
            let cols = self.data[i].len();
            assert(self.grid()[i as int] == self.data@[i as int]@);
            let mut line: Vec<bool> = Vec::new();
            let mut j: usize = 0;
            while j < cols
                invariant
                    i < self.grid().len(),
                    cols == self.grid()[i as int].len(),
                    self.grid()[i as int] == self.data@[i as int]@,
                    0 <= j <= cols,
                    line@.len() == j,
                    forall|l: int|
                        0 <= l < j ==> #[trigger] line@[l] == is_ascii_chars(
                            self.grid()[i as int][l]@),
                decreases cols - j,
            {
                let v = self.data[i][j].is_ascii();
                line.push(v);
                j += 1;
            }
            grid.push(line);
            i += 1;
        }
        Matrix { data: grid, debug: false }
    }

    /// The byte length of each element, as a matrix of sizes.
    pub fn to_strlen(&self) -> (r: Matrix<usize>)
        ensures
            r.grid().len() == self.grid().len(),
            forall|i: int|
                0 <= i < self.grid().len() ==> (#[trigger] r.grid()[i]).len()
                    == self.grid()[i].len(),
            forall|i: int, j: int|
                0 <= i < self.grid().len() && 0 <= j < self.grid()[i].len()
                    ==> #[trigger] r.grid()[i][j] == encode_utf8(
                    self.grid()[i][j]@).len() as usize,
            r.debug == false,
    {
        let mut grid: Vec<Vec<usize>> = Vec::new();
        let mut i: usize = 0;
        while i < self.data.len()
            invariant
                0 <= i <= self.grid().len(),
                grid@.len() == i,
                forall|k: int|
                    0 <= k < i ==> (#[trigger] grid@[k])@.len()
                        == self.grid()[k].len(),
                forall|k: int, j: int|
                    0 <= k < i && 0 <= j < self.grid()[k].len()
                        ==> #[trigger] grid@[k]@[j] == encode_utf8(
                        self.grid()[k][j]@).len() as usize,
            decreases self.grid().len() - i,
        {
            let cols = self.data[i].len();
            assert(self.grid()[i as int] == self.data@[i as int]@);
            let mut line: Vec<usize> = Vec::new();
            let mut j: usize = 0;
            while j < cols
                invariant
                    i < self.grid().len(),
                    cols == self.grid()[i as int].len(),
                    self.grid()[i as int] == self.data@[i as int]@,
                    0 <= j <= cols,
                    line@.len() == j,
                    forall|l: int|
                        0 <= l < j ==> #[trigger] line@[l] == encode_utf8(
                            self.grid()[i as int][l]@).len() as usize,
                decreases cols - j,
            {
                let v = self.data[i][j].as_str().len();
                line.push(v);
                j += 1;
            }
            grid.push(line);
            i += 1;
        }
        Matrix { data: grid, debug: false }
    }

    /// The bytes of each element, as a matrix of borrowed byte slices.
    pub fn as_bytes<'a>(&'a self) -> (r: Matrix<&'a [u8]>)
        ensures
            r.grid().len() == self.grid().len(),
            forall|i: int|
                0 <= i < self.grid().len() ==> (#[trigger] r.grid()[i]).len()
                    == self.grid()[i].len(),
            forall|i: int, j: int|
                0 <= i < self.grid().len() && 0 <= j < self.grid()[i].len()
                    ==> (#[trigger] r.grid()[i][j])@ == encode_utf8(
                    self.grid()[i][j]@),
            r.debug == false,
    {
        let mut grid: Vec<Vec<&'a [u8]>> = Vec::new();
        let mut i: usize = 0;
        while i < self.data.len()
            invariant
                0 <= i <= self.grid().len(),
                grid@.len() == i,
                forall|k: int|
                    0 <= k < i ==> (#[trigger] grid@[k])@.len()
                        == self.grid()[k].len(),
                forall|k: int, j: int|
                    0 <= k < i && 0 <= j < self.grid()[k].len()
                        ==> (#[trigger] grid@[k]@[j])@ == encode_utf8(
                        self.grid()[k][j]@),
            decreases self.grid().len() - i,
        {
            let cols = self.data[i].len();
            assert(self.grid()[i as int] == self.data@[i as int]@);
            let mut line: Vec<&'a [u8]> = Vec::new();
            let mut j: usize = 0;
            while j < cols
                invariant
                    i < self.grid().len(),
                    cols == self.grid()[i as int].len(),
                    self.grid()[i as int] == self.data@[i as int]@,
                    0 <= j <= cols,
                    line@.len() == j,
                    forall|l: int|
                        0 <= l < j ==> (#[trigger] line@[l])@ == encode_utf8(
                            self.grid()[i as int][l]@),
                decreases cols - j,
            {
                let v = self.data[i][j].as_str().as_bytes();
                line.push(v);
                j += 1;
            }
            grid.push(line);
            i += 1;
        }
        Matrix { data: grid, debug: false }
    }

    /// Remove the last character of every element; empty elements stay
    /// empty.
    pub fn pop_char(&mut self) -> (r: &mut Self)
        ensures
            r.grid().len() == old(self).grid().len(),
            forall|i: int|
                0 <= i < old(self).grid().len() ==> (#[trigger] r.grid()[i]).len()
                    == old(self).grid()[i].len(),
            forall|i: int, j: int|
                0 <= i < old(self).grid().len() && 0 <= j
                    < old(self).grid()[i].len() ==> (#[trigger] r.grid()[i][j])@
                    == (if old(self).grid()[i][j]@.len() > 0 {
                    old(self).grid()[i][j]@.subrange(0,
                        old(self).grid()[i][j]@.len() - 1)
                } else {
                    old(self).grid()[i][j]@
                }),
            r.debug == old(self).debug,
            *final(self) == *final(r),
    {
        let mut i: usize = 0;
        while i < self.data.len()
            invariant
                0 <= i <= old(self).grid().len(),
                self.grid().len() == old(self).grid().len(),
                self.debug == old(self).debug,
                forall|k: int|
                    0 <= k < old(self).grid().len() ==> (#[trigger] self.grid()[k]).len()
                        == old(self).grid()[k].len(),
                forall|k: int, j: int|
                    0 <= k < i && 0 <= j < old(self).grid()[k].len()
                        ==> (#[trigger] self.grid()[k][j])@
                        == (if old(self).grid()[k][j]@.len() > 0 {
                        old(self).grid()[k][j]@.subrange(0,
                            old(self).grid()[k][j]@.len() - 1)
                    } else {
                        old(self).grid()[k][j]@
                    }),
                forall|k: int, j: int|
                    i <= k < old(self).grid().len() && 0 <= j
                        < old(self).grid()[k].len() ==> #[trigger] self.grid()[k][j]
                        == old(self).grid()[k][j],
            decreases old(self).grid().len() - i,
        {
            let cols = self.data[i].len();
            assert(self.grid()[i as int] == self.data@[i as int]@);
            assert(cols == old(self).grid()[i as int].len());
            let mut row: Vec<String> = Vec::new();
            let mut j: usize = 0;
            while j < cols
                invariant
                    i < old(self).grid().len(),
                    self.grid().len() == old(self).grid().len(),
                    cols == old(self).grid()[i as int].len(),
                    self.grid()[i as int] == old(self).grid()[i as int],
                    self.grid()[i as int] == self.data@[i as int]@,
                    0 <= j <= cols,
                    row@.len() == j,
                    forall|l: int|
                        0 <= l < j ==> (#[trigger] row@[l])@
                            == (if old(self).grid()[i as int][l]@.len() > 0 {
                            old(self).grid()[i as int][l]@.subrange(0,
                                old(self).grid()[i as int][l]@.len() - 1)
                        } else {
                            old(self).grid()[i as int][l]@
                        }),
                decreases cols - j,
            {
                let v = chop_last(&self.data[i][j]);
                row.push(v);
                j += 1;
            }
            let ghost before = self.grid();
            self.set_row(i, row);
            assert(forall|k: int|
                0 <= k < old(self).grid().len() && k != i ==> #[trigger] self.grid()[k]
                    == before[k]);
            assert(self.grid()[i as int] == row@);
            i += 1;
        }
        self
    }

    /// Append the character to every element.
    pub fn push_char(&mut self, ch: char) -> (r: &mut Self)
        ensures
            r.grid().len() == old(self).grid().len(),
            forall|i: int|
                0 <= i < old(self).grid().len() ==> (#[trigger] r.grid()[i]).len()
                    == old(self).grid()[i].len(),
            forall|i: int, j: int|
                0 <= i < old(self).grid().len() && 0 <= j
                    < old(self).grid()[i].len() ==> (#[trigger] r.grid()[i][j])@
                    == old(self).grid()[i][j]@.push(ch),
            r.debug == old(self).debug,
            *final(self) == *final(r),
    {
        let mut i: usize = 0;
        while i < self.data.len()
            invariant
                0 <= i <= old(self).grid().len(),
                self.grid().len() == old(self).grid().len(),
                self.debug == old(self).debug,
                forall|k: int|
                    0 <= k < old(self).grid().len() ==> (#[trigger] self.grid()[k]).len()
                        == old(self).grid()[k].len(),
                forall|k: int, j: int|
                    0 <= k < i && 0 <= j < old(self).grid()[k].len()
                        ==> (#[trigger] self.grid()[k][j])@
                        == old(self).grid()[k][j]@.push(ch),
                forall|k: int, j: int|
                    i <= k < old(self).grid().len() && 0 <= j
                        < old(self).grid()[k].len() ==> #[trigger] self.grid()[k][j]
                        == old(self).grid()[k][j],
            decreases old(self).grid().len() - i,
        {
            let cols = self.data[i].len();
            assert(self.grid()[i as int] == self.data@[i as int]@);
            assert(cols == old(self).grid()[i as int].len());
            let mut row: Vec<String> = Vec::new();
            let mut j: usize = 0;
            while j < cols
                invariant
                    i < old(self).grid().len(),
                    self.grid().len() == old(self).grid().len(),
                    cols == old(self).grid()[i as int].len(),
                    self.grid()[i as int] == old(self).grid()[i as int],
                    self.grid()[i as int] == self.data@[i as int]@,
                    0 <= j <= cols,
                    row@.len() == j,
                    forall|l: int|
                        0 <= l < j ==> (#[trigger] row@[l])@
                            == old(self).grid()[i as int][l]@.push(ch),
                decreases cols - j,
            {
                let mut v = self.data[i][j].clone();
                assert(v@ == self.grid()[i as int][j as int]@);
                v.push(ch);
                row.push(v);
                j += 1;
            }
            let ghost before = self.grid();
            self.set_row(i, row);
            assert(forall|k: int|
                0 <= k < old(self).grid().len() && k != i ==> #[trigger] self.grid()[k]
                    == before[k]);
            assert(self.grid()[i as int] == row@);
            i += 1;
        }
        self
    }

    /// Append the text to every element.
    pub fn push_str(&mut self, s: &str) -> (r: &mut Self)
        ensures
            r.grid().len() == old(self).grid().len(),
            forall|i: int|
                0 <= i < old(self).grid().len() ==> (#[trigger] r.grid()[i]).len()
                    == old(self).grid()[i].len(),
            forall|i: int, j: int|
                0 <= i < old(self).grid().len() && 0 <= j
                    < old(self).grid()[i].len() ==> (#[trigger] r.grid()[i][j])@
                    == old(self).grid()[i][j]@ + s@,
            r.debug == old(self).debug,
            *final(self) == *final(r),
    {
        let mut i: usize = 0;
        while i < self.data.len()
            invariant
                0 <= i <= old(self).grid().len(),
                self.grid().len() == old(self).grid().len(),
                self.debug == old(self).debug,
                forall|k: int|
                    0 <= k < old(self).grid().len() ==> (#[trigger] self.grid()[k]).len()
                        == old(self).grid()[k].len(),
                forall|k: int, j: int|
                    0 <= k < i && 0 <= j < old(self).grid()[k].len()
                        ==> (#[trigger] self.grid()[k][j])@
                        == old(self).grid()[k][j]@ + s@,
                forall|k: int, j: int|
                    i <= k < old(self).grid().len() && 0 <= j
                        < old(self).grid()[k].len() ==> #[trigger] self.grid()[k][j]
                        == old(self).grid()[k][j],
            decreases old(self).grid().len() - i,
        {
            let cols = self.data[i].len();
            assert(self.grid()[i as int] == self.data@[i as int]@);
            assert(cols == old(self).grid()[i as int].len());
            let mut row: Vec<String> = Vec::new();
            let mut j: usize = 0;
            while j < cols
                invariant
                    i < old(self).grid().len(),
                    self.grid().len() == old(self).grid().len(),
                    cols == old(self).grid()[i as int].len(),
                    self.grid()[i as int] == old(self).grid()[i as int],
                    self.grid()[i as int] == self.data@[i as int]@,
                    0 <= j <= cols,
                    row@.len() == j,
                    forall|l: int|
                        0 <= l < j ==> (#[trigger] row@[l])@
                            == old(self).grid()[i as int][l]@ + s@,
                decreases cols - j,
            {
                let mut v = self.data[i][j].clone();
                assert(v@ == self.grid()[i as int][j as int]@);
                v.append(s);
                row.push(v);
                j += 1;
            }
            let ghost before = self.grid();
            self.set_row(i, row);
            assert(forall|k: int|
                0 <= k < old(self).grid().len() && k != i ==> #[trigger] self.grid()[k]
                    == before[k]);
            assert(self.grid()[i as int] == row@);
            i += 1;
        }
        self
    }

    /// Remove the leading white space of every element.
    pub fn trim_start(&mut self) -> (r: &mut Self)
        ensures
            r.grid().len() == old(self).grid().len(),
            forall|i: int|
                0 <= i < old(self).grid().len() ==> (#[trigger] r.grid()[i]).len()
                    == old(self).grid()[i].len(),
            forall|i: int, j: int|
                0 <= i < old(self).grid().len() && 0 <= j
                    < old(self).grid()[i].len() ==> (#[trigger] r.grid()[i][j])@
                    == trim_start_seq(old(self).grid()[i][j]@),
            r.debug == old(self).debug,
            *final(self) == *final(r),
    {
        let mut i: usize = 0;
        while i < self.data.len()
            invariant
                0 <= i <= old(self).grid().len(),
                self.grid().len() == old(self).grid().len(),
                self.debug == old(self).debug,
                forall|k: int|
                    0 <= k < old(self).grid().len() ==> (#[trigger] self.grid()[k]).len()
                        == old(self).grid()[k].len(),
                forall|k: int, j: int|
                    0 <= k < i && 0 <= j < old(self).grid()[k].len()
                        ==> (#[trigger] self.grid()[k][j])@
                        == trim_start_seq(old(self).grid()[k][j]@),
                forall|k: int, j: int|
                    i <= k < old(self).grid().len() && 0 <= j
                        < old(self).grid()[k].len() ==> #[trigger] self.grid()[k][j]
                        == old(self).grid()[k][j],
            decreases old(self).grid().len() - i,
        {
            let cols = self.data[i].len();
            assert(self.grid()[i as int] == self.data@[i as int]@);
            assert(cols == old(self).grid()[i as int].len());
            let mut row: Vec<String> = Vec::new();
            let mut j: usize = 0;
            while j < cols
                invariant
                    i < old(self).grid().len(),
                    self.grid().len() == old(self).grid().len(),
                    cols == old(self).grid()[i as int].len(),
                    self.grid()[i as int] == old(self).grid()[i as int],
                    self.grid()[i as int] == self.data@[i as int]@,
                    0 <= j <= cols,
                    row@.len() == j,
                    forall|l: int|
                        0 <= l < j ==> (#[trigger] row@[l])@
                            == trim_start_seq(old(self).grid()[i as int][l]@),
                decreases cols - j,
            {
                let v = str_trim_start(self.data[i][j].as_str());
                row.push(v);
                j += 1;
            }
            let ghost before = self.grid();
            self.set_row(i, row);
            assert(forall|k: int|
                0 <= k < old(self).grid().len() && k != i ==> #[trigger] self.grid()[k]
                    == before[k]);
            assert(self.grid()[i as int] == row@);
            i += 1;
        }
        self
    }

    /// Remove the trailing white space of every element.
    pub fn trim_end(&mut self) -> (r: &mut Self)
        ensures
            r.grid().len() == old(self).grid().len(),
            forall|i: int|
                0 <= i < old(self).grid().len() ==> (#[trigger] r.grid()[i]).len()
                    == old(self).grid()[i].len(),
            forall|i: int, j: int|
                0 <= i < old(self).grid().len() && 0 <= j
                    < old(self).grid()[i].len() ==> (#[trigger] r.grid()[i][j])@
                    == trim_end_seq(old(self).grid()[i][j]@),
            r.debug == old(self).debug,
            *final(self) == *final(r),
    {
        let mut i: usize = 0;
        while i < self.data.len()
            invariant
                0 <= i <= old(self).grid().len(),
                self.grid().len() == old(self).grid().len(),
                self.debug == old(self).debug,
                forall|k: int|
                    0 <= k < old(self).grid().len() ==> (#[trigger] self.grid()[k]).len()
                        == old(self).grid()[k].len(),
                forall|k: int, j: int|
                    0 <= k < i && 0 <= j < old(self).grid()[k].len()
                        ==> (#[trigger] self.grid()[k][j])@
                        == trim_end_seq(old(self).grid()[k][j]@),
                forall|k: int, j: int|
                    i <= k < old(self).grid().len() && 0 <= j
                        < old(self).grid()[k].len() ==> #[trigger] self.grid()[k][j]
                        == old(self).grid()[k][j],
            decreases old(self).grid().len() - i,
        {
            let cols = self.data[i].len();
            assert(self.grid()[i as int] == self.data@[i as int]@);
            assert(cols == old(self).grid()[i as int].len());
            let mut row: Vec<String> = Vec::new();
            let mut j: usize = 0;
            while j < cols
                invariant
                    i < old(self).grid().len(),
                    self.grid().len() == old(self).grid().len(),
                    cols == old(self).grid()[i as int].len(),
                    self.grid()[i as int] == old(self).grid()[i as int],
                    self.grid()[i as int] == self.data@[i as int]@,
                    0 <= j <= cols,
                    row@.len() == j,
                    forall|l: int|
                        0 <= l < j ==> (#[trigger] row@[l])@
                            == trim_end_seq(old(self).grid()[i as int][l]@),
                decreases cols - j,
            {
                let v = str_trim_end(self.data[i][j].as_str());
                row.push(v);
                j += 1;
            }
            let ghost before = self.grid();
            self.set_row(i, row);
            assert(forall|k: int|
                0 <= k < old(self).grid().len() && k != i ==> #[trigger] self.grid()[k]
                    == before[k]);
            assert(self.grid()[i as int] == row@);
            i += 1;
        }
        self
    }

    /// Remove the leading and trailing white space of every element.
    pub fn trim(&mut self) -> (r: &mut Self)
        ensures
            r.grid().len() == old(self).grid().len(),
            forall|i: int|
                0 <= i < old(self).grid().len() ==> (#[trigger] r.grid()[i]).len()
                    == old(self).grid()[i].len(),
            forall|i: int, j: int|
                0 <= i < old(self).grid().len() && 0 <= j
                    < old(self).grid()[i].len() ==> (#[trigger] r.grid()[i][j])@
                    == trim_end_seq(trim_start_seq(old(self).grid()[i][j]@)),
            r.debug == old(self).debug,
            *final(self) == *final(r),
    {
        let mut i: usize = 0;
        while i < self.data.len()
            invariant
                0 <= i <= old(self).grid().len(),
                self.grid().len() == old(self).grid().len(),
                self.debug == old(self).debug,
                forall|k: int|
                    0 <= k < old(self).grid().len() ==> (#[trigger] self.grid()[k]).len()
                        == old(self).grid()[k].len(),
                forall|k: int, j: int|
                    0 <= k < i && 0 <= j < old(self).grid()[k].len()
                        ==> (#[trigger] self.grid()[k][j])@
                        == trim_end_seq(trim_start_seq(old(self).grid()[k][j]@)),
                forall|k: int, j: int|
                    i <= k < old(self).grid().len() && 0 <= j
                        < old(self).grid()[k].len() ==> #[trigger] self.grid()[k][j]
                        == old(self).grid()[k][j],
            decreases old(self).grid().len() - i,
        {
            let cols = self.data[i].len();
            assert(self.grid()[i as int] == self.data@[i as int]@);
            assert(cols == old(self).grid()[i as int].len());
            let mut row: Vec<String> = Vec::new();
            let mut j: usize = 0;
            while j < cols
                invariant
                    i < old(self).grid().len(),
                    self.grid().len() == old(self).grid().len(),
                    cols == old(self).grid()[i as int].len(),
                    self.grid()[i as int] == old(self).grid()[i as int],
                    self.grid()[i as int] == self.data@[i as int]@,
                    0 <= j <= cols,
                    row@.len() == j,
                    forall|l: int|
                        0 <= l < j ==> (#[trigger] row@[l])@
                            == trim_end_seq(trim_start_seq(old(self).grid()[i as int][l]@)),
                decreases cols - j,
            {
                let v = str_trim_end(str_trim_start(self.data[i][j].as_str()).as_str());
                row.push(v);
                j += 1;
            }
            let ghost before = self.grid();
            self.set_row(i, row);
            assert(forall|k: int|
                0 <= k < old(self).grid().len() && k != i ==> #[trigger] self.grid()[k]
                    == before[k]);
            assert(self.grid()[i as int] == row@);
            i += 1;
        }
        self
    }

    /// Replace, in every element, each occurrence of `from` by `to`.
    pub fn replace(&mut self, from: &str, to: &str) -> (r: &mut Self)
        ensures
            r.grid().len() == old(self).grid().len(),
            forall|i: int|
                0 <= i < old(self).grid().len() ==> (#[trigger] r.grid()[i]).len()
                    == old(self).grid()[i].len(),
            forall|i: int, j: int|
                0 <= i < old(self).grid().len() && 0 <= j
                    < old(self).grid()[i].len() ==> (#[trigger] r.grid()[i][j])@
                    == replace_seq(old(self).grid()[i][j]@, from@, to@),
            r.debug == old(self).debug,
            *final(self) == *final(r),
    {
        let mut i: usize = 0;
        while i < self.data.len()
            invariant
                0 <= i <= old(self).grid().len(),
                self.grid().len() == old(self).grid().len(),
                self.debug == old(self).debug,
                forall|k: int|
                    0 <= k < old(self).grid().len() ==> (#[trigger] self.grid()[k]).len()
                        == old(self).grid()[k].len(),
                forall|k: int, j: int|
                    0 <= k < i && 0 <= j < old(self).grid()[k].len()
                        ==> (#[trigger] self.grid()[k][j])@
                        == replace_seq(old(self).grid()[k][j]@, from@, to@),
                forall|k: int, j: int|
                    i <= k < old(self).grid().len() && 0 <= j
                        < old(self).grid()[k].len() ==> #[trigger] self.grid()[k][j]
                        == old(self).grid()[k][j],
            decreases old(self).grid().len() - i,
        {
            let cols = self.data[i].len();
            assert(self.grid()[i as int] == self.data@[i as int]@);
            assert(cols == old(self).grid()[i as int].len());
            let mut row: Vec<String> = Vec::new();
            let mut j: usize = 0;
            while j < cols
                invariant
                    i < old(self).grid().len(),
                    self.grid().len() == old(self).grid().len(),
                    cols == old(self).grid()[i as int].len(),
                    self.grid()[i as int] == old(self).grid()[i as int],
                    self.grid()[i as int] == self.data@[i as int]@,
                    0 <= j <= cols,
                    row@.len() == j,
                    forall|l: int|
                        0 <= l < j ==> (#[trigger] row@[l])@
                            == replace_seq(old(self).grid()[i as int][l]@, from@, to@),
                decreases cols - j,
            {
                let v = str_replace(self.data[i][j].as_str(), from, to);
                row.push(v);
                j += 1;
            }
            let ghost before = self.grid();
            self.set_row(i, row);
            assert(forall|k: int|
                0 <= k < old(self).grid().len() && k != i ==> #[trigger] self.grid()[k]
                    == before[k]);
            assert(self.grid()[i as int] == row@);
            i += 1;
        }
        self
    }
}

impl Matrix<&str> {
    /// Convert a matrix of borrowed text into a matrix of owned strings
    /// with the same characters.
    pub fn to_string(&self) -> (r: Matrix<String>)
        ensures
            r.grid().len() == self.grid().len(),
            forall|i: int|
                0 <= i < self.grid().len() ==> (#[trigger] r.grid()[i]).len()
                    == self.grid()[i].len(),
            forall|i: int, j: int|
                0 <= i < self.grid().len() && 0 <= j < self.grid()[i].len()
                    ==> (#[trigger] r.grid()[i][j])@ == self.grid()[i][j]@,
            r.debug == false,
    {
        let mut grid: Vec<Vec<String>> = Vec::new();
        let mut i: usize = 0;
        while i < self.data.len()
            invariant
                0 <= i <= self.grid().len(),
                grid@.len() == i,
                forall|k: int|
                    0 <= k < i ==> (#[trigger] grid@[k])@.len()
                        == self.grid()[k].len(),
                forall|k: int, j: int|
                    0 <= k < i && 0 <= j < self.grid()[k].len()
                        ==> (#[trigger] grid@[k]@[j])@ == self.grid()[k][j]@,
            decreases self.grid().len() - i,
        {
            let cols = self.data[i].len();
            assert(self.grid()[i as int] == self.data@[i as int]@);
            let mut line: Vec<String> = Vec::new();
            let mut j: usize = 0;
            while j < cols
                invariant
                    i < self.grid().len(),
                    cols == self.grid()[i as int].len(),
                    self.grid()[i as int] == self.data@[i as int]@,
                    0 <= j <= cols,
                    line@.len() == j,
                    forall|l: int|
                        0 <= l < j ==> (#[trigger] line@[l])@
                            == self.grid()[i as int][l]@,
                decreases cols - j,
            {
                let v = self.data[i][j].to_owned();
                line.push(v);
                j += 1;
            }
            grid.push(line);
            i += 1;
        }
        Matrix { data: grid, debug: false }
    }
}

impl Matrix<i64> {
    /// Convert a matrix of integers into a matrix of their decimal
    /// representations.
    pub fn to_string(&self) -> (r: Matrix<String>)
        ensures
            r.grid().len() == self.grid().len(),
            forall|i: int|
                0 <= i < self.grid().len() ==> (#[trigger] r.grid()[i]).len()
                    == self.grid()[i].len(),
            forall|i: int, j: int|
                0 <= i < self.grid().len() && 0 <= j < self.grid()[i].len()
                    ==> (#[trigger] r.grid()[i][j])@ == dec_str(
                    self.grid()[i][j] as int),
            r.debug == false,
    {
        let mut grid: Vec<Vec<String>> = Vec::new();
        let mut i: usize = 0;
        while i < self.data.len()
            invariant
                0 <= i <= self.grid().len(),
                grid@.len() == i,
                forall|k: int|
                    0 <= k < i ==> (#[trigger] grid@[k])@.len()
                        == self.grid()[k].len(),
                forall|k: int, j: int|
                    0 <= k < i && 0 <= j < self.grid()[k].len()
                        ==> (#[trigger] grid@[k]@[j])@ == dec_str(
                        self.grid()[k][j] as int),
            decreases self.grid().len() - i,
        {
            let cols = self.data[i].len();
            assert(self.grid()[i as int] == self.data@[i as int]@);
            let mut line: Vec<String> = Vec::new();
            let mut j: usize = 0;
            while j < cols
                invariant
                    i < self.grid().len(),
                    cols == self.grid()[i as int].len(),
                    self.grid()[i as int] == self.data@[i as int]@,
                    0 <= j <= cols,
                    line@.len() == j,
                    forall|l: int|
                        0 <= l < j ==> (#[trigger] line@[l])@ == dec_str(
                            self.grid()[i as int][l] as int),
                decreases cols - j,
            {
                let v = int_to_string(self.data[i][j]);
                line.push(v);
                j += 1;
            }
            grid.push(line);
            i += 1;
        }
        Matrix { data: grid, debug: false }
    }
}

} // verus!
