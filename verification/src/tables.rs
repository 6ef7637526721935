//! Small constructors for the vectors and matrices of the simulator.

use vstd::prelude::*;
use vstd::string::StringExecFns;

verus! {

/// A vector of `n` copies of `x`.
pub fn filled<T: Copy>(n: usize, x: T) -> (v: Vec<T>)
    ensures
        v@.len() == n,
        forall|i: int| 0 <= i < n ==> v@[i] == x,
{
    let mut v: Vec<T> = Vec::new();
    let mut i: usize = 0;
    while i < n
        invariant
            v@.len() == i,
            i <= n,
            forall|j: int| 0 <= j < i ==> v@[j] == x,
        decreases n - i,
    {
        v.push(x);
        i += 1;
    }
    v
}

/// An `rows` by `cols` matrix of copies of `x`.
pub fn filled_matrix<T: Copy>(rows: usize, cols: usize, x: T) -> (m: Vec<Vec<T>>)
    ensures
        m@.len() == rows,
        forall|r: int| 0 <= r < rows ==> (#[trigger] m@[r])@.len() == cols,
        forall|r: int, c: int| 0 <= r < rows && 0 <= c < cols ==> m@[r]@[c] == x,
{
    let mut m: Vec<Vec<T>> = Vec::new();
    let mut r: usize = 0;
    while r < rows
        invariant
            m@.len() == r,
            r <= rows,
            forall|i: int| 0 <= i < r ==> (#[trigger] m@[i])@.len() == cols,
            forall|i: int, c: int| 0 <= i < r && 0 <= c < cols ==> m@[i]@[c] == x,
        decreases rows - r,
    {
        m.push(filled(cols, x));
        r += 1;
    }
    m
}

/// The identity arrangement `0, 1, ..., n-1`.
pub fn identity_ids(n: usize) -> (v: Vec<usize>)
    ensures
        v@.len() == n,
        forall|i: int| 0 <= i < n ==> v@[i] == i,
{
    let mut v: Vec<usize> = Vec::new();
    let mut i: usize = 0;
    while i < n
        invariant
            v@.len() == i,
            i <= n,
            forall|j: int| 0 <= j < i ==> v@[j] == j,
        decreases n - i,
    {
        v.push(i);
        i += 1;
    }
    v
}

/// The character of one decimal digit.
pub open spec fn digit_char(d: int) -> char {
    ((48 + d) as u8) as char
}

/// `n` written in decimal, most significant digit first.
pub open spec fn dec_rep(n: nat) -> Seq<char>
    decreases n,
{
    if n < 10 {
        seq![digit_char(n as int)]
    } else {
        dec_rep(n / 10).push(digit_char((n % 10) as int))
    }
}

/// The digits `digits[k-1], ..., digits[0]` as characters.
spec fn rev_chars(digits: Seq<usize>, k: int) -> Seq<char>
    decreases k,
{
    if k <= 0 {
        Seq::empty()
    } else {
        seq![digit_char(digits[k - 1] as int)] + rev_chars(digits, k - 1)
    }
}

proof fn lemma_rev_chars_len(digits: Seq<usize>, k: int)
    requires
        0 <= k,
    ensures
        rev_chars(digits, k).len() == k,
    decreases k,
{
    if k > 0 {
        lemma_rev_chars_len(digits, k - 1);
    }
}

proof fn lemma_rev_chars_index(digits: Seq<usize>, k: int, idx: int)
    requires
        0 <= idx < k,
    ensures
        rev_chars(digits, k).len() == k,
        rev_chars(digits, k)[idx] == digit_char(digits[k - 1 - idx] as int),
    decreases k,
{
    lemma_rev_chars_len(digits, k);
    if idx > 0 {
        lemma_rev_chars_index(digits, k - 1, idx - 1);
    }
}

proof fn lemma_rev_chars_push(digits: Seq<usize>, d: usize, k: int)
    requires
        0 <= k <= digits.len(),
    ensures
        rev_chars(digits.push(d), k) == rev_chars(digits, k),
    decreases k,
{
    if k > 0 {
        lemma_rev_chars_push(digits, d, k - 1);
        assert(rev_chars(digits.push(d), k) =~= rev_chars(digits, k));
    }
}

/// One decimal digit as text.
fn digit_str(d: usize) -> (r: &'static str)
    requires
        d < 10,
    ensures
        r@ == seq![digit_char(d as int)],
{
    proof {
        reveal_strlit("0");
        reveal_strlit("1");
        reveal_strlit("2");
        reveal_strlit("3");
        reveal_strlit("4");
        reveal_strlit("5");
        reveal_strlit("6");
        reveal_strlit("7");
        reveal_strlit("8");
        reveal_strlit("9");
    }
    let r = match d {
        0 => "0",
        1 => "1",
        2 => "2",
        3 => "3",
        4 => "4",
        5 => "5",
        6 => "6",
        7 => "7",
        8 => "8",
        _ => "9",
    };
    proof {
        assert(r@ =~= seq![digit_char(d as int)]);
    }
    r
}

/// `n` written in decimal, for building column labels.
pub fn usize_to_string(n: usize) -> (s: String)
    ensures
        s@ == dec_rep(n as nat),
{
    if n == 0 {
        let s = String::from_str("0");
        proof {
            reveal_strlit("0");
            assert(s@ =~= dec_rep(0));
        }
        return s;
    }
    let mut digits: Vec<usize> = Vec::new();
    let mut m = n;
    while m > 0
        invariant
            forall|i: int| 0 <= i < digits@.len() ==> (#[trigger] digits@[i]) < 10,
            m > 0 ==> dec_rep(n as nat) == dec_rep(m as nat) + rev_chars(
                digits@,
                digits@.len() as int,
            ),
            m == 0 ==> dec_rep(n as nat) == rev_chars(digits@, digits@.len() as int) && digits@.len()
                >= 1,
        decreases m,
    {
        let ghost old_digits = digits@;
        let ghost old_m = m as nat;
        digits.push(m % 10);
        m = m / 10;
        proof {
            lemma_rev_chars_push(old_digits, (old_m % 10) as usize, old_digits.len() as int);
            assert(rev_chars(digits@, digits@.len() as int) =~= seq![
                digit_char((old_m % 10) as int),
            ] + rev_chars(old_digits, old_digits.len() as int));
            if old_m < 10 {
                assert(dec_rep(old_m) =~= seq![digit_char(old_m as int)]);
                assert(dec_rep(n as nat) =~= rev_chars(digits@, digits@.len() as int));
            } else {
                assert(dec_rep(old_m) == dec_rep(old_m / 10).push(
                    digit_char((old_m % 10) as int),
                ));
                assert(dec_rep(n as nat) =~= dec_rep(m as nat) + rev_chars(
                    digits@,
                    digits@.len() as int,
                ));
            }
        }
    }
    let len = digits.len();
    let ghost whole = rev_chars(digits@, len as int);
    proof {
        lemma_rev_chars_len(digits@, len as int);
    }
    let mut s = String::new();
    let mut i = len;
    while i > 0
        invariant
            i <= len,
            len == digits@.len(),
            whole == rev_chars(digits@, len as int),
            whole.len() == len,
            forall|j: int| 0 <= j < len ==> (#[trigger] digits@[j]) < 10,
            s@ == whole.subrange(0, len - i),
        decreases i,
    {
        i -= 1;
        let piece = digit_str(digits[i]);
        s.append(piece);
        proof {
            lemma_rev_chars_index(digits@, len as int, len - 1 - i as int);
            assert(whole[len - 1 - i as int] == digit_char(digits@[i as int] as int));
            assert(s@ =~= whole.subrange(0, len - i as int));
        }
    }
    proof {
        assert(whole.subrange(0, len as int) =~= whole);
    }
    s
}

} // verus!
