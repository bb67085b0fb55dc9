//! Number formatting shared by the value table and the listings: decimal,
//! binary, balanced ternary and balanced nonary strings, and the wrap of
//! an integer into the syllable range.

use vstd::prelude::*;
use vstd::arithmetic::div_mod::lemma_fundamental_div_mod;
use vstd::arithmetic::div_mod::lemma_fundamental_div_mod_converse;
use crate::arith::wrap;

verus! {

/// Appends a character to a string (std `String::push`).
#[verifier::external_body]
pub(crate) fn push_char(s: &mut String, c: char)
    ensures
        final(s)@ == old(s)@.push(c),
{
    s.push(c);
}

/// The decimal digit character of `d` (0..=9).
pub open spec fn digit_char(d: int) -> char {
    if d == 0 {
        '0'
    } else if d == 1 {
        '1'
    } else if d == 2 {
        '2'
    } else if d == 3 {
        '3'
    } else if d == 4 {
        '4'
    } else if d == 5 {
        '5'
    } else if d == 6 {
        '6'
    } else if d == 7 {
        '7'
    } else if d == 8 {
        '8'
    } else {
        '9'
    }
}

/// Decimal digits of `n`, most significant first, no leading zeros.
pub open spec fn dec_digits(n: nat) -> Seq<char>
    decreases n,
{
    if n < 10 {
        seq![digit_char(n as int)]
    } else {
        dec_digits(n / 10).push(digit_char((n % 10) as int))
    }
}

/// Decimal notation of `v`, with a leading '-' when negative.
pub open spec fn dec_str(v: int) -> Seq<char> {
    if v < 0 {
        seq!['-'] + dec_digits((-v) as nat)
    } else {
        dec_digits(v as nat)
    }
}

/// Binary digits of `n`, most significant first ("0" for zero).
pub open spec fn bin_digits(n: nat) -> Seq<char>
    decreases n,
{
    if n < 2 {
        seq![if n == 1 { '1' } else { '0' }]
    } else {
        bin_digits(n / 2).push(if n % 2 == 1 { '1' } else { '0' })
    }
}

/// Binary notation of `v`: sign and magnitude.
pub open spec fn bin_str(v: int) -> Seq<char> {
    if v < 0 {
        seq!['-'] + bin_digits((-v) as nat)
    } else {
        bin_digits(v as nat)
    }
}

pub open spec fn abs(n: int) -> int {
    if n >= 0 {
        n
    } else {
        -n
    }
}

/// The balanced digit of `n` in base `b` (odd): the residue of `n`
/// in −(b−1)/2 ..= (b−1)/2.
pub open spec fn bal_digit(n: int, b: int) -> int {
    let r = n % b;
    if r > (b - 1) / 2 {
        r - b
    } else {
        r
    }
}

/// The symbol of a balanced digit: N/O/P in base 3, W X Y Z 0 1 2 3 4 in
/// base 9.
pub open spec fn bal_symbol(d: int, b: int) -> char {
    if b == 3 {
        if d < 0 {
            'N'
        } else if d == 0 {
            'O'
        } else {
            'P'
        }
    } else {
        if d == -4 {
            'W'
        } else if d == -3 {
            'X'
        } else if d == -2 {
            'Y'
        } else if d == -1 {
            'Z'
        } else {
            digit_char(d)
        }
    }
}

pub proof fn lemma_bal_step(n: int, b: int)
    requires
        n != 0,
        b == 3 || b == 9,
    ensures
        (n - bal_digit(n, b)) % b == 0,
        abs((n - bal_digit(n, b)) / b) < abs(n),
        -((b - 1) / 2) <= bal_digit(n, b) <= (b - 1) / 2,
{
    lemma_fundamental_div_mod(n, b);
    let q = n / b;
    let r = n % b;
    let d = bal_digit(n, b);
    if r > (b - 1) / 2 {
        assert(n - d == b * (q + 1));
        lemma_fundamental_div_mod_converse(n - d, b, q + 1, 0);
        assert(abs(q + 1) < abs(n)) by (nonlinear_arith)
            requires
                n == b * q + r,
                (b - 1) / 2 < r < b,
                b == 3 || b == 9,
                n != 0,
        ;
    } else {
        assert(n - d == b * q);
        lemma_fundamental_div_mod_converse(n - d, b, q, 0);
        assert(abs(q) < abs(n)) by (nonlinear_arith)
            requires
                n == b * q + r,
                0 <= r <= (b - 1) / 2,
                b == 3 || b == 9,
                n != 0,
        ;
    }
}

/// Balanced base-`b` symbols of `n`, most significant first (empty for 0).
pub open spec fn bal_chars(n: int, b: int) -> Seq<char>
    decreases abs(n),
    when b == 3 || b == 9
{
    if n == 0 {
        Seq::empty()
    } else {
        proof {
            lemma_bal_step(n, b);
        }
        bal_chars((n - bal_digit(n, b)) / b, b).push(bal_symbol(bal_digit(n, b), b))
    }
}

/// Balanced ternary notation: "O" for zero.
pub open spec fn ternary_str(v: int) -> Seq<char> {
    if v == 0 {
        seq!['O']
    } else {
        bal_chars(v, 3)
    }
}

/// Balanced nonary notation: "0" for zero.
pub open spec fn nonary_str(v: int) -> Seq<char> {
    if v == 0 {
        seq!['0']
    } else {
        bal_chars(v, 9)
    }
}

fn digit(d: u64) -> (c: char)
    requires
        d < 10,
    ensures
        c == digit_char(d as int),
{
    if d == 0 {
        '0'
    } else if d == 1 {
        '1'
    } else if d == 2 {
        '2'
    } else if d == 3 {
        '3'
    } else if d == 4 {
        '4'
    } else if d == 5 {
        '5'
    } else if d == 6 {
        '6'
    } else if d == 7 {
        '7'
    } else if d == 8 {
        '8'
    } else {
        '9'
    }
}

pub(crate) fn push_digits(s: &mut String, n: u64)
    ensures
        final(s)@ == old(s)@ + dec_digits(n as nat),
    decreases n,
{
    if n >= 10 {
        push_digits(s, n / 10);
    }
    push_char(s, digit(n % 10));
}

/// Appends the decimal notation of `v`.
pub fn push_decimal(s: &mut String, v: i64)
    requires
        v > i64::MIN,
    ensures
        final(s)@ == old(s)@ + dec_str(v as int),
{
    if v < 0 {
        push_char(s, '-');
        push_digits(s, (-v) as u64);
        assert(final(s)@ =~= old(s)@ + dec_str(v as int));
    } else {
        push_digits(s, v as u64);
    }
}

/// Decimal notation of `v`.
pub fn decimal_string(v: i64) -> (r: String)
    requires
        v > i64::MIN,
    ensures
        r@ == dec_str(v as int),
{
    let mut s = String::new();
    push_decimal(&mut s, v);
    assert(s@ =~= dec_str(v as int));
    s
}

fn push_bits(s: &mut String, n: u16)
    ensures
        final(s)@ == old(s)@ + bin_digits(n as nat),
    decreases n,
{
    if n >= 2 {
        push_bits(s, n / 2);
    }
    push_char(s, if n % 2 == 1 { '1' } else { '0' });
}

/// Binary notation of `v` (sign and magnitude, "0" for zero).
pub fn to_binary_string(v: i16) -> (r: String)
    requires
        v > i16::MIN,
    ensures
        r@ == bin_str(v as int),
{
    let mut s = String::new();
    if v < 0 {
        push_char(&mut s, '-');
        push_bits(&mut s, (-v) as u16);
    } else {
        push_bits(&mut s, v as u16);
    }
    assert(s@ =~= bin_str(v as int));
    s
}

fn symbol(d: i32, b: i32) -> (c: char)
    requires
        b == 3 || b == 9,
        -((b - 1) / 2) <= d <= (b - 1) / 2,
    ensures
        c == bal_symbol(d as int, b as int),
{
    if b == 3 {
        if d < 0 {
            'N'
        } else if d == 0 {
            'O'
        } else {
            'P'
        }
    } else if d == -4 {
        'W'
    } else if d == -3 {
        'X'
    } else if d == -2 {
        'Y'
    } else if d == -1 {
        'Z'
    } else {
        digit(d as u64)
    }
}

/// The balanced digit of `n` and the rest `(n − d) / b`.
pub(crate) fn bal_step(n: i32, b: i32) -> (r: (i32, i32))
    requires
        n != 0,
        b == 3 || b == 9,
        -100000 <= n <= 100000,
    ensures
        r.0 == bal_digit(n as int, b as int),
        r.1 == (n - bal_digit(n as int, b as int)) / (b as int),
{
    proof {
        lemma_bal_step(n as int, b as int);
        lemma_fundamental_div_mod(n as int, b as int);
    }
    let a: u32 = if n >= 0 { n as u32 } else { (-n) as u32 };
    let bu: u32 = b as u32;
    let am: u32 = a % bu;
    proof {
        lemma_fundamental_div_mod(a as int, b as int);
        let k = (a / bu) as int;
        if n < 0 && am != 0 {
            assert(n == b * (-k - 1) + (b - am));
            lemma_fundamental_div_mod_converse(n as int, b as int, -k - 1, b - am);
        } else if n < 0 {
            assert(n == b * (-k) + 0);
            lemma_fundamental_div_mod_converse(n as int, b as int, -k, 0);
        }
    }
    let r: i32 = if n >= 0 {
        am as i32
    } else if am == 0 {
        0
    } else {
        b - am as i32
    };
    assert(r == (n as int) % (b as int));
    let d: i32 = if r > (b - 1) / 2 { r - b } else { r };
    let m: i32 = n - d;
    let q: i32 = if m >= 0 {
        ((m as u32) / bu) as i32
    } else {
        -((((-m) as u32) / bu) as i32)
    };
    proof {
        let mi = m as int;
        let bi = b as int;
        let k = mi / bi;
        lemma_fundamental_div_mod(mi, bi);
        assert(mi == bi * k);
        if m >= 0 {
            lemma_fundamental_div_mod_converse(mi, bi, k, 0);
        } else {
            assert(-mi == bi * (-k) + 0);
            lemma_fundamental_div_mod_converse(-mi, bi, -k, 0);
        }
    }
    (d, q)
}

fn push_balanced(s: &mut String, n: i32, b: i32)
    requires
        b == 3 || b == 9,
        -100000 <= n <= 100000,
    ensures
        final(s)@ == old(s)@ + bal_chars(n as int, b as int),
    decreases abs(n as int),
{
    if n != 0 {
        proof {
            lemma_bal_step(n as int, b as int);
        }
        let (d, q) = bal_step(n, b);
        push_balanced(s, q, b);
        push_char(s, symbol(d, b));
        assert(final(s)@ =~= old(s)@ + bal_chars(n as int, b as int));
    } else {
        assert(old(s)@ + bal_chars(n as int, b as int) =~= old(s)@);
    }
}

/// Balanced ternary notation of `v` with the digits N, O, P ("O" for 0).
pub fn to_balanced_ternary(v: i16) -> (r: String)
    ensures
        r@ == ternary_str(v as int),
{
    let mut s = String::new();
    if v == 0 {
        push_char(&mut s, 'O');
    } else {
        push_balanced(&mut s, v as i32, 3);
    }
    assert(s@ =~= ternary_str(v as int));
    s
}

/// Balanced nonary notation of `v` with the digits W X Y Z 0 1 2 3 4
/// (−4..=4; "0" for 0).
pub fn to_balanced_nonary(v: i16) -> (r: String)
    ensures
        r@ == nonary_str(v as int),
{
    let mut s = String::new();
    if v == 0 {
        push_char(&mut s, '0');
    } else {
        push_balanced(&mut s, v as i32, 9);
    }
    assert(s@ =~= nonary_str(v as int));
    s
}

/// Wraps `v` into the syllable range −364..=364 (modulo 729).
pub fn wrap_value(v: i32) -> (r: i16)
    requires
        v <= i32::MAX - 364,
    ensures
        r == wrap(v as int, 729),
        -364 <= r <= 364,
{
    let shifted: i64 = v as i64 + 364;
    let m: i64 = if shifted >= 0 {
        ((shifted as u64) % 729) as i64
    } else {
        let k: u64 = ((-shifted) as u64) % 729;
        if k == 0 {
            0
        } else {
            729 - k as i64
        }
    };
    proof {
        let si = shifted as int;
        if shifted < 0 {
            let a = -si;
            lemma_fundamental_div_mod(a, 729);
            let q = a / 729;
            let k = a % 729;
            if k == 0 {
                lemma_fundamental_div_mod_converse(si, 729, -q, 0);
            } else {
                lemma_fundamental_div_mod_converse(si, 729, -q - 1, 729 - k);
            }
        }
    }
    (m - 364) as i16
}

/// The value of a balanced nonary digit: W X Y Z 0 1 2 3 4 are −4..=4.
pub open spec fn nonary_digit_value(c: char) -> int {
    if c == 'W' {
        -4
    } else if c == 'X' {
        -3
    } else if c == 'Y' {
        -2
    } else if c == 'Z' {
        -1
    } else if c == '1' {
        1
    } else if c == '2' {
        2
    } else if c == '3' {
        3
    } else if c == '4' {
        4
    } else {
        0
    }
}

/// The value of a balanced ternary digit: N O P are −1, 0, 1.
pub open spec fn ternary_digit_value(c: char) -> int {
    if c == 'N' {
        -1
    } else if c == 'P' {
        1
    } else {
        0
    }
}

/// The nine nonary digits.
pub open spec fn is_nonary_digit(c: char) -> bool {
    c == 'W' || c == 'X' || c == 'Y' || c == 'Z' || c == '0' || c == '1' || c == '2' || c == '3' || c == '4'
}

/// The three ternary digits.
pub open spec fn is_ternary_digit(c: char) -> bool {
    c == 'N' || c == 'O' || c == 'P'
}

/// Reads a nonary text, most significant digit first.
pub open spec fn read_nonary(s: Seq<char>) -> int
    decreases s.len(),
{
    if s.len() == 0 {
        0
    } else {
        9 * read_nonary(s.drop_last()) + nonary_digit_value(s.last())
    }
}

/// Reads a ternary text, most significant digit first.
pub open spec fn read_ternary(s: Seq<char>) -> int
    decreases s.len(),
{
    if s.len() == 0 {
        0
    } else {
        3 * read_ternary(s.drop_last()) + ternary_digit_value(s.last())
    }
}

proof fn lemma_bal_chars_read(n: int, b: int)
    requires
        b == 3 || b == 9,
    ensures
        b == 9 ==> read_nonary(bal_chars(n, b)) == n && forall|i: int|
            0 <= i < bal_chars(n, b).len() ==> is_nonary_digit(#[trigger] bal_chars(n, b)[i]),
        b == 3 ==> read_ternary(bal_chars(n, b)) == n && forall|i: int|
            0 <= i < bal_chars(n, b).len() ==> is_ternary_digit(#[trigger] bal_chars(n, b)[i]),
    decreases abs(n),
{
    if n != 0 {
        lemma_bal_step(n, b);
        let d = bal_digit(n, b);
        let q = (n - d) / b;
        lemma_bal_chars_read(q, b);
        let s = bal_chars(n, b);
        assert(s == bal_chars(q, b).push(bal_symbol(d, b)));
        assert(s.drop_last() =~= bal_chars(q, b));
        assert(n == b * q + d) by (nonlinear_arith)
            requires
                (n - d) % b == 0,
                q == (n - d) / b,
                b == 3 || b == 9,
        {
        }
        if b == 9 {
            assert(nonary_digit_value(bal_symbol(d, 9)) == d);
            assert(is_nonary_digit(bal_symbol(d, 9)));
        } else {
            assert(ternary_digit_value(bal_symbol(d, 3)) == d);
            assert(is_ternary_digit(bal_symbol(d, 3)));
        }
        assert forall|i: int| 0 <= i < s.len() - 1 implies s[i] == bal_chars(q, b)[i] by {}
    }
}

/// Reading the balanced nonary text of any value back, with the digits W X
/// Y Z 0 1 2 3 4 worth −4..=4, gives the value.
pub proof fn law_nonary_reads_back(v: int)
    ensures
        read_nonary(nonary_str(v)) == v,
        forall|i: int| 0 <= i < nonary_str(v).len() ==> is_nonary_digit(#[trigger] nonary_str(v)[i]),
{
    if v == 0 {
        let s = nonary_str(v);
        assert(s =~= seq!['0']);
        assert(s.drop_last() =~= Seq::<char>::empty());
        assert(read_nonary(s) == 9 * read_nonary(s.drop_last()) + nonary_digit_value(s.last()));
    } else {
        lemma_bal_chars_read(v, 9);
    }
}

/// Reading the balanced ternary text of any value back, with the digits N
/// O P worth −1, 0, 1, gives the value.
pub proof fn law_ternary_reads_back(v: int)
    ensures
        read_ternary(ternary_str(v)) == v,
        forall|i: int| 0 <= i < ternary_str(v).len() ==> is_ternary_digit(#[trigger] ternary_str(v)[i]),
{
    if v == 0 {
        let s = ternary_str(v);
        assert(s =~= seq!['O']);
        assert(s.drop_last() =~= Seq::<char>::empty());
        assert(read_ternary(s) == 3 * read_ternary(s.drop_last()) + ternary_digit_value(s.last()));
    } else {
        lemma_bal_chars_read(v, 3);
    }
}

} // verus!

