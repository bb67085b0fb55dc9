//! The balanced ternary digit.

use vstd::prelude::*;

verus! {

/// A balanced trit: N = −1, Z = 0, P = +1.
#[derive(Clone, Copy, Debug, PartialEq, Eq, Structural)]
pub enum Trit {
    N,
    Z,
    P,
}

impl Trit {
    /// The integer the trit stands for.
    pub open spec fn val(self) -> int {
        match self {
            Trit::N => -1,
            Trit::Z => 0,
            Trit::P => 1,
        }
    }

    /// The trit of a digit in −1..=1 (any negative → N, any positive → P).
    pub open spec fn of(v: int) -> Trit {
        if v < 0 {
            Trit::N
        } else if v == 0 {
            Trit::Z
        } else {
            Trit::P
        }
    }

    pub fn to_i8(self) -> (r: i8)
        ensures
            r == self.val(),
    {
        match self {
            Trit::N => -1,
            Trit::Z => 0,
            Trit::P => 1,
        }
    }

    /// The trit of `v`, or None when `v` is not a balanced digit.
    pub fn from_i8(v: i8) -> (r: Option<Trit>)
        ensures
            r is Some <==> -1 <= v <= 1,
            r matches Some(t) ==> t.val() == v,
    {
        if v == -1 {
            Some(Trit::N)
        } else if v == 0 {
            Some(Trit::Z)
        } else if v == 1 {
            Some(Trit::P)
        } else {
            None
        }
    }

    pub fn neg(self) -> (r: Trit)
        ensures
            r.val() == -self.val(),
    {
        match self {
            Trit::N => Trit::P,
            Trit::Z => Trit::Z,
            Trit::P => Trit::N,
        }
    }

    /// Product of two trits.
    pub fn mul(self, other: Trit) -> (r: Trit)
        ensures
            r.val() == self.val() * other.val(),
    {
        match self {
            Trit::N => other.neg(),
            Trit::Z => Trit::Z,
            Trit::P => other,
        }
    }
}

/// Splits `v` into a balanced digit and the quotient: `v == d + 3q`.
pub fn bal_split(v: i128) -> (r: (Trit, i128))
    requires
        -1_000_000_000_000_000_000_000_000_000_000_000i128 <= v
            <= 1_000_000_000_000_000_000_000_000_000_000_000i128,
    ensures
        v == r.0.val() + 3 * r.1,
{
    let q = v / 3;
    let rem = v % 3;
    if rem == 2 {
        (Trit::N, q + 1)
    } else if rem == -2 {
        (Trit::P, q - 1)
    } else if rem == 1 {
        (Trit::P, q)
    } else if rem == -1 {
        (Trit::N, q)
    } else {
        (Trit::Z, q)
    }
}

} // verus!
