//! Balanced residues and powers of three shared by the ternary types.

use vstd::prelude::*;
use vstd::arithmetic::div_mod::lemma_fundamental_div_mod_converse;
use vstd::arithmetic::div_mod::lemma_fundamental_div_mod;

verus! {

/// 3^n.
pub open spec fn pow3(n: nat) -> int
    decreases n,
{
    if n == 0 { 1 } else { 3 * pow3((n - 1) as nat) }
}

/// The balanced residue of `v` modulo the odd modulus `m`: the unique
/// `r` with `-(m-1)/2 <= r <= (m-1)/2` and `r ≡ v (mod m)`.
pub open spec fn wrap(v: int, m: int) -> int {
    (v + (m - 1) / 2) % m - (m - 1) / 2
}

pub proof fn lemma_pow3_pos(n: nat)
    ensures
        pow3(n) >= 1,
    decreases n,
{
    if n > 0 {
        lemma_pow3_pos((n - 1) as nat);
    }
}

pub proof fn lemma_pow3_odd(n: nat)
    ensures
        pow3(n) % 2 == 1,
    decreases n,
{
    if n > 0 {
        lemma_pow3_odd((n - 1) as nat);
    }
}

/// A residue in the balanced range that is congruent to `v` is `wrap(v, m)`.
pub proof fn lemma_wrap_unique(v: int, r: int, m: int, q: int)
    requires
        m > 0,
        v == r + m * q,
        -((m - 1) / 2) <= r <= (m - 1) / 2,
        m % 2 == 1,
    ensures
        wrap(v, m) == r,
{
    let h = (m - 1) / 2;
    assert(v + h == q * m + (r + h)) by (nonlinear_arith)
        requires
            v == r + m * q,
    ;
    lemma_fundamental_div_mod_converse(v + h, m, q, r + h);
}

/// `wrap(v, m)` lies in the balanced range and differs from `v` by a
/// multiple of `m`.
pub proof fn lemma_wrap_props(v: int, m: int) -> (q: int)
    requires
        m > 0,
        m % 2 == 1,
    ensures
        -((m - 1) / 2) <= wrap(v, m) <= (m - 1) / 2,
        v == wrap(v, m) + m * q,
{
    let h = (m - 1) / 2;
    lemma_fundamental_div_mod(v + h, m);
    let q = (v + h) / m;
    assert(v == wrap(v, m) + m * q) by (nonlinear_arith)
        requires
            v + h == m * ((v + h) / m) + (v + h) % m,
            q == (v + h) / m,
            wrap(v, m) == (v + h) % m - h,
    ;
    q
}

/// A value already in the balanced range is its own residue.
pub proof fn lemma_wrap_small(v: int, m: int)
    requires
        m > 0,
        m % 2 == 1,
        -((m - 1) / 2) <= v <= (m - 1) / 2,
    ensures
        wrap(v, m) == v,
{
    lemma_wrap_unique(v, v, m, 0);
}


/// The powers of three used by the register fields.
pub proof fn lemma_pow3_small()
    ensures
        pow3(0) == 1,
        pow3(1) == 3,
        pow3(2) == 9,
        pow3(3) == 27,
        pow3(4) == 81,
        pow3(5) == 243,
        pow3(6) == 729,
        pow3(7) == 2187,
        pow3(8) == 6561,
{
    reveal_with_fuel(pow3, 9);
}

} // verus!
