//! The 6-trit syllable (tryte). Trit `i` has weight 3^i.

use vstd::prelude::*;
use crate::arith::{wrap, lemma_wrap_unique};
use crate::trit::{Trit, bal_split};
use vstd::arithmetic::div_mod::lemma_fundamental_div_mod_converse;

verus! {

/// Modulus of a tryte: 3^6.
pub const TRYTE_MOD: i64 = 729;

/// A syllable of six balanced trits, least significant first.
#[derive(Clone, Copy, Debug, PartialEq, Eq)]
pub struct Tryte {
    pub trits: [Trit; 6],
}

impl Tryte {
    /// Balanced value Σ trits[i]·3^i.
    pub open spec fn value(self) -> int {
        self.trits[0].val() + 3 * self.trits[1].val() + 9 * self.trits[2].val() + 27
            * self.trits[3].val() + 81 * self.trits[4].val() + 243 * self.trits[5].val()
    }

    /// All trits are zero.
    pub open spec fn is_zero(self) -> bool {
        forall|i: int| 0 <= i < 6 ==> self.trits[i] == Trit::Z
    }

    pub proof fn lemma_range(self)
        ensures
            -364 <= self.value() <= 364,
    {
    }

    pub fn zero() -> (r: Tryte)
        ensures
            r.is_zero(),
            r.value() == 0,
    {
        Tryte { trits: [Trit::Z; 6] }
    }

    /// The tryte of `v` modulo 3^6 (balanced).
    pub fn from_i16(v: i16) -> (r: Tryte)
        ensures
            r.value() == wrap(v as int, 729),
    {
        let (t, q) = split_tryte(v as i128);
        proof {
            t.lemma_range();
            lemma_wrap_unique(v as int, t.value(), 729, q as int);
        }
        t
    }

    pub fn to_i16(&self) -> (r: i16)
        ensures
            r == self.value(),
    {
        let mut v: i16 = 0;
        v = v * 3 + self.trits[5].to_i8() as i16;
        v = v * 3 + self.trits[4].to_i8() as i16;
        v = v * 3 + self.trits[3].to_i8() as i16;
        v = v * 3 + self.trits[2].to_i8() as i16;
        v = v * 3 + self.trits[1].to_i8() as i16;
        v = v * 3 + self.trits[0].to_i8() as i16;
        v
    }

    /// Sum modulo 3^6.
    pub fn add(&self, other: &Tryte) -> (r: Tryte)
        ensures
            r.value() == wrap(self.value() + other.value(), 729),
    {
        let s = self.to_i16() + other.to_i16();
        Tryte::from_i16(s)
    }

    /// Difference modulo 3^6.
    pub fn sub(&self, other: &Tryte) -> (r: Tryte)
        ensures
            r.value() == wrap(self.value() - other.value(), 729),
    {
        let s = self.to_i16() - other.to_i16();
        Tryte::from_i16(s)
    }
}

/// Splits `v` into its six least significant balanced trits and the rest:
/// `v == t.value() + 729·q`.
pub fn split_tryte(v: i128) -> (r: (Tryte, i128))
    requires
        -1_000_000_000_000_000_000_000_000_000_000i128 <= v
            <= 1_000_000_000_000_000_000_000_000_000_000i128,
    ensures
        v == r.0.value() + 729 * r.1,
        -1_000_000_000_000_000_000_000_000_000_000i128 <= r.1
            <= 1_000_000_000_000_000_000_000_000_000_000i128,
{
    let (d0, q0) = bal_split(v);
    let (d1, q1) = bal_split(q0);
    let (d2, q2) = bal_split(q1);
    let (d3, q3) = bal_split(q2);
    let (d4, q4) = bal_split(q3);
    let (d5, q5) = bal_split(q4);
    let t = Tryte { trits: [d0, d1, d2, d3, d4, d5] };
    assert(t.trits[0] == d0 && t.trits[1] == d1 && t.trits[2] == d2 && t.trits[3] == d3
        && t.trits[4] == d4 && t.trits[5] == d5);
    (t, q5)
}

/// The balanced digit of `v` (its residue in −1..=1 modulo 3).
pub open spec fn low_trit(v: int) -> int {
    crate::util::bal_digit(v, 3)
}

/// `v` without its balanced low digit, divided by 3.
pub open spec fn high_part(v: int) -> int {
    (v - low_trit(v)) / 3
}

/// The syllable whose six balanced digits are those of `v`, least
/// significant first.
pub open spec fn of_value(v: int) -> Tryte {
    let v1 = high_part(v);
    let v2 = high_part(v1);
    let v3 = high_part(v2);
    let v4 = high_part(v3);
    let v5 = high_part(v4);
    Tryte {
        trits: [
            Trit::of(low_trit(v)),
            Trit::of(low_trit(v1)),
            Trit::of(low_trit(v2)),
            Trit::of(low_trit(v3)),
            Trit::of(low_trit(v4)),
            Trit::of(low_trit(v5)),
        ],
    }
}

pub proof fn lemma_digit_split(a: int, rest: int)
    requires
        -1 <= a <= 1,
    ensures
        low_trit(a + 3 * rest) == a,
        high_part(a + 3 * rest) == rest,
{
    let v = a + 3 * rest;
    if a == -1 {
        lemma_fundamental_div_mod_converse(v, 3, rest - 1, 2);
    } else {
        lemma_fundamental_div_mod_converse(v, 3, rest, a);
    }
    lemma_fundamental_div_mod_converse(v - a, 3, rest, 0);
}

/// A syllable is determined by its value.
pub proof fn lemma_of_value(t: Tryte)
    ensures
        of_value(t.value()) == t,
{
    let a = t.trits;
    let r4 = a[4].val() + 3 * a[5].val();
    let r3 = a[3].val() + 3 * r4;
    let r2 = a[2].val() + 3 * r3;
    let r1 = a[1].val() + 3 * r2;
    assert(t.value() == a[0].val() + 3 * r1);
    lemma_digit_split(a[0].val(), r1);
    lemma_digit_split(a[1].val(), r2);
    lemma_digit_split(a[2].val(), r3);
    lemma_digit_split(a[3].val(), r4);
    lemma_digit_split(a[4].val(), a[5].val());
    lemma_digit_split(a[5].val(), 0);
    assert(of_value(t.value()).trits =~= t.trits);
}

/// Two syllables with one value are equal.
pub proof fn lemma_value_injective(a: Tryte, b: Tryte)
    requires
        a.value() == b.value(),
    ensures
        a == b,
{
    lemma_of_value(a);
    lemma_of_value(b);
}

/// A syllable survives the trip through its 16-bit value: the syllable
/// made of its value (modulo 3^6) is the syllable itself.
pub proof fn law_i16_roundtrip(t: Tryte, r: Tryte)
    requires
        r.value() == wrap(t.value(), 729),
    ensures
        r == t,
{
    t.lemma_range();
    crate::arith::lemma_wrap_small(t.value(), 729);
    lemma_value_injective(r, t);
}

} // verus!
