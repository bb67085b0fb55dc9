//! The 18-trit word (three syllables) and the 36-trit double word.
//! Trit `i` has weight 3^i.

use vstd::prelude::*;
use crate::arith::{wrap, lemma_wrap_unique};
use crate::trit::Trit;
use crate::tryte::{Tryte, split_tryte};

verus! {

/// Modulus of a word: 3^18.
pub const WORD_MOD: i64 = 387_420_489;

/// Largest value of a word: (3^18 − 1) / 2.
pub const WORD_MAX: i64 = 193_710_244;

/// Modulus of a double word: 3^36.
pub const DWORD_MOD: i128 = 150_094_635_296_999_121;

/// An 18-trit register value, least significant trit first.
#[derive(Clone, Copy, Debug, PartialEq, Eq)]
pub struct Word {
    pub trits: [Trit; 18],
}

/// Value of the six trits `t[k..k+6]` of a word.
pub open spec fn tri_at(t: [Trit; 18], k: int) -> int {
    t[k].val() + 3 * t[k + 1].val() + 9 * t[k + 2].val() + 27 * t[k + 3].val() + 81 * t[k
        + 4].val() + 243 * t[k + 5].val()
}

impl Word {
    /// Balanced value Σ trits[i]·3^i.
    pub open spec fn value(self) -> int {
        tri_at(self.trits, 0) + 729 * tri_at(self.trits, 6) + 531441 * tri_at(self.trits, 12)
    }

    /// The tryte made of trits `6k .. 6k+6`.
    pub open spec fn tryte_at(self, k: int) -> Tryte {
        Tryte {
            trits: [
                self.trits[6 * k],
                self.trits[6 * k + 1],
                self.trits[6 * k + 2],
                self.trits[6 * k + 3],
                self.trits[6 * k + 4],
                self.trits[6 * k + 5],
            ],
        }
    }

    pub open spec fn is_zero(self) -> bool {
        forall|i: int| 0 <= i < 18 ==> self.trits[i] == Trit::Z
    }

    pub proof fn lemma_range(self)
        ensures
            -193710244 <= self.value() <= 193710244,
    {
    }

    pub fn zero() -> (r: Word)
        ensures
            r.is_zero(),
            r.value() == 0,
    {
        Word { trits: [Trit::Z; 18] }
    }

    /// Assembles a word from its junior, middle and senior syllables.
    pub fn from_trytes(lo: &Tryte, mid: &Tryte, hi: &Tryte) -> (r: Word)
        ensures
            r.tryte_at(0) == *lo,
            r.tryte_at(1) == *mid,
            r.tryte_at(2) == *hi,
            forall|i: int| 0 <= i < 6 ==> r.trits[i] == lo.trits[i],
            forall|i: int| 0 <= i < 6 ==> r.trits[i + 6] == mid.trits[i],
            forall|i: int| 0 <= i < 6 ==> r.trits[i + 12] == hi.trits[i],
            r.value() == lo.value() + 729 * mid.value() + 531441 * hi.value(),
    {
        let r = Word {
            trits: [
                lo.trits[0],
                lo.trits[1],
                lo.trits[2],
                lo.trits[3],
                lo.trits[4],
                lo.trits[5],
                mid.trits[0],
                mid.trits[1],
                mid.trits[2],
                mid.trits[3],
                mid.trits[4],
                mid.trits[5],
                hi.trits[0],
                hi.trits[1],
                hi.trits[2],
                hi.trits[3],
                hi.trits[4],
                hi.trits[5],
            ],
        };
        assert(r.tryte_at(0).trits =~= lo.trits);
        assert(r.tryte_at(1).trits =~= mid.trits);
        assert(r.tryte_at(2).trits =~= hi.trits);
        r
    }

    /// Splits the word into (junior, middle, senior) syllables.
    pub fn to_trytes(&self) -> (r: (Tryte, Tryte, Tryte))
        ensures
            r.0 == self.tryte_at(0),
            r.1 == self.tryte_at(1),
            r.2 == self.tryte_at(2),
            self.value() == r.0.value() + 729 * r.1.value() + 531441 * r.2.value(),
    {
        let t = &self.trits;
        let lo = Tryte { trits: [t[0], t[1], t[2], t[3], t[4], t[5]] };
        let mid = Tryte { trits: [t[6], t[7], t[8], t[9], t[10], t[11]] };
        let hi = Tryte { trits: [t[12], t[13], t[14], t[15], t[16], t[17]] };
        assert(lo.trits =~= self.tryte_at(0).trits);
        assert(mid.trits =~= self.tryte_at(1).trits);
        assert(hi.trits =~= self.tryte_at(2).trits);
        (lo, mid, hi)
    }

    pub fn to_i64(&self) -> (r: i64)
        ensures
            r == self.value(),
    {
        let (lo, mid, hi) = self.to_trytes();
        lo.to_i16() as i64 + 729 * (mid.to_i16() as i64) + 531441 * (hi.to_i16() as i64)
    }

    /// The word of `v` modulo 3^18 (balanced).
    pub fn from_i64(v: i64) -> (r: Word)
        ensures
            r.value() == wrap(v as int, 387420489),
    {
        let (r, q) = split_word(v as i128);
        proof {
            r.lemma_range();
            lemma_wrap_unique(v as int, r.value(), 387420489, q as int);
        }
        r
    }

    /// Sum modulo 3^18.
    pub fn add(&self, other: &Word) -> (r: Word)
        ensures
            r.value() == wrap(self.value() + other.value(), 387420489),
    {
        Word::from_i64(self.to_i64() + other.to_i64())
    }

    /// Difference modulo 3^18.
    pub fn sub(&self, other: &Word) -> (r: Word)
        ensures
            r.value() == wrap(self.value() - other.value(), 387420489),
    {
        Word::from_i64(self.to_i64() - other.to_i64())
    }

    /// Trit-wise negation.
    pub fn neg(&self) -> (r: Word)
        ensures
            forall|i: int| 0 <= i < 18 ==> r.trits[i].val() == -self.trits[i].val(),
            r.value() == -self.value(),
    {
        let mut t = self.trits;
        for i in 0..18
            invariant
                forall|j: int| 0 <= j < i ==> t[j].val() == -self.trits[j].val(),
                forall|j: int| i <= j < 18 ==> t[j] == self.trits[j],
        {
            t[i] = self.trits[i].neg();
        }
        Word { trits: t }
    }

    /// Absolute value (always representable).
    pub fn abs(&self) -> (r: Word)
        ensures
            r.value() == (if self.value() < 0 { -self.value() } else { self.value() }),
    {
        if self.to_i64() < 0 {
            self.neg()
        } else {
            *self
        }
    }

    /// Multiply-accumulate into a double word: the 36-trit value of
    /// `self + a·b·3^2`, modulo 3^36, split into (junior, senior) words.
    pub fn mul_acc(&self, a: &Word, b: &Word) -> (r: (Word, Word))
        ensures
            r.1.value() * 387420489 + r.0.value() == wrap(
                self.value() + a.value() * b.value() * 9,
                150094635296999121,
            ),
    {
        let av = a.to_i64() as i128;
        let bv = b.to_i64() as i128;
        proof {
            a.lemma_range();
            b.lemma_range();
            assert(-37523658730919536 <= av * bv <= 37523658730919536) by (nonlinear_arith)
                requires
                    -193710244 <= av <= 193710244,
                    -193710244 <= bv <= 193710244,
            ;
        }
        let x: i128 = self.to_i64() as i128 + av * bv * 9;
        let (lo, q) = split_word(x);
        let (hi, q2) = split_word(q);
        proof {
            lo.lemma_range();
            hi.lemma_range();
            let d = hi.value() * 387420489 + lo.value();
            assert(x == d + 150094635296999121 * q2);
            lemma_wrap_unique(x as int, d, 150094635296999121, q2 as int);
        }
        (lo, hi)
    }
}

/// Splits `v` into its 18 least significant balanced trits and the rest:
/// `v == w.value() + 3^18·q`.
pub fn split_word(v: i128) -> (r: (Word, i128))
    requires
        -1_000_000_000_000_000_000_000_000_000_000i128 <= v
            <= 1_000_000_000_000_000_000_000_000_000_000i128,
    ensures
        v == r.0.value() + 387420489 * r.1,
        -1_000_000_000_000_000_000_000_000_000_000i128 <= r.1
            <= 1_000_000_000_000_000_000_000_000_000_000i128,
{
    let (lo, q1) = split_tryte(v);
    let (mid, q2) = split_tryte(q1);
    let (hi, q3) = split_tryte(q2);
    let w = Word::from_trytes(&lo, &mid, &hi);
    (w, q3)
}


/// A 36-trit double word: `hi·3^18 + lo`.
#[derive(Clone, Copy, Debug, PartialEq, Eq)]
pub struct DWord {
    pub hi: Word,
    pub lo: Word,
}

impl DWord {
    /// Trit `i` (0..36) of the double word, least significant first.
    pub open spec fn trit(self, i: int) -> Trit {
        if i < 18 {
            self.lo.trits[i]
        } else {
            self.hi.trits[i - 18]
        }
    }

    pub open spec fn value(self) -> int {
        self.hi.value() * 387420489 + self.lo.value()
    }

    pub open spec fn is_zero(self) -> bool {
        forall|i: int| 0 <= i < 36 ==> self.trit(i) == Trit::Z
    }

    /// Trit `i` of the double word shifted `n` places towards the senior end.
    pub open spec fn shl_trit(self, n: int, i: int) -> Trit {
        if i >= n {
            self.trit(i - n)
        } else {
            Trit::Z
        }
    }

    /// Trit `i` of the double word shifted `n` places towards the junior end.
    pub open spec fn shr_trit(self, n: int, i: int) -> Trit {
        if i + n < 36 {
            self.trit(i + n)
        } else {
            Trit::Z
        }
    }

    /// Number of zero trits above the senior nonzero trit, among trits 0..k.
    pub open spec fn lead_zeros(self, k: int) -> int
        decreases k,
    {
        if k <= 0 {
            0
        } else if self.trit(k - 1) != Trit::Z {
            0
        } else {
            1 + self.lead_zeros(k - 1)
        }
    }

    /// Shift count of the normalisation (0 for zero).
    pub open spec fn norm_shift(self) -> int {
        if self.is_zero() {
            0
        } else {
            self.lead_zeros(36)
        }
    }

    pub fn new(hi: Word, lo: Word) -> (r: DWord)
        ensures
            r.hi == hi,
            r.lo == lo,
    {
        DWord { hi, lo }
    }

    fn get(&self, i: usize) -> (r: Trit)
        requires
            i < 36,
        ensures
            r == self.trit(i as int),
    {
        if i < 18 {
            self.lo.trits[i]
        } else {
            self.hi.trits[i - 18]
        }
    }

    /// Shift by `n` trits towards the senior end (multiplication by 3^n,
    /// senior trits are lost).
    pub fn shl(&self, n: usize) -> (r: DWord)
        ensures
            forall|i: int| 0 <= i < 36 ==> r.trit(i) == self.shl_trit(n as int, i),
    {
        let mut lo = [Trit::Z; 18];
        let mut hi = [Trit::Z; 18];
        for i in 0..18
            invariant
                forall|j: int| 0 <= j < i ==> lo[j] == self.shl_trit(n as int, j),
        {
            if i >= n {
                lo[i] = self.get(i - n);
            } else {
                lo[i] = Trit::Z;
            }
        }
        for i in 0..18
            invariant
                forall|j: int| 0 <= j < 18 ==> lo[j] == self.shl_trit(n as int, j),
                forall|j: int| 0 <= j < i ==> hi[j] == self.shl_trit(n as int, j + 18),
        {
            if i + 18 >= n {
                hi[i] = self.get(i + 18 - n);
            } else {
                hi[i] = Trit::Z;
            }
        }
        let r = DWord { hi: Word { trits: hi }, lo: Word { trits: lo } };
        assert forall|i: int| 0 <= i < 36 implies r.trit(i) == self.shl_trit(n as int, i) by {
            if i >= 18 {
                assert(hi[i - 18] == self.shl_trit(n as int, (i - 18) + 18));
            }
        }
        r
    }

    /// Shift by `n` trits towards the junior end (junior trits are lost).
    pub fn shr(&self, n: usize) -> (r: DWord)
        ensures
            forall|i: int| 0 <= i < 36 ==> r.trit(i) == self.shr_trit(n as int, i),
    {
        let mut lo = [Trit::Z; 18];
        let mut hi = [Trit::Z; 18];
        for i in 0..18
            invariant
                forall|j: int| 0 <= j < i ==> lo[j] == self.shr_trit(n as int, j),
        {
            if n < 36 - i {
                lo[i] = self.get(i + n);
            } else {
                lo[i] = Trit::Z;
            }
        }
        for i in 0..18
            invariant
                forall|j: int| 0 <= j < 18 ==> lo[j] == self.shr_trit(n as int, j),
                forall|j: int| 0 <= j < i ==> hi[j] == self.shr_trit(n as int, j + 18),
        {
            if n < 18 - i {
                hi[i] = self.get(i + 18 + n);
            } else {
                hi[i] = Trit::Z;
            }
        }
        let r = DWord { hi: Word { trits: hi }, lo: Word { trits: lo } };
        assert forall|i: int| 0 <= i < 36 implies r.trit(i) == self.shr_trit(n as int, i) by {
            if i >= 18 {
                assert(hi[i - 18] == self.shr_trit(n as int, (i - 18) + 18));
            }
        }
        r
    }

    /// Normalisation: shifts towards the senior end until the senior trit
    /// is nonzero; returns the shifted value and the shift count. A zero
    /// double word is returned unchanged with count 0.
    pub fn normalize(&self) -> (r: (DWord, i32))
        ensures
            self.is_zero() ==> r.0 == *self && r.1 == 0,
            r.1 == self.norm_shift(),
            forall|i: int| 0 <= i < 36 ==> r.0.trit(i) == self.shl_trit(r.1 as int, i),
            !self.is_zero() ==> {
                &&& 0 <= r.1 < 36
                &&& self.trit(35 - r.1) != Trit::Z
                &&& forall|j: int| 35 - r.1 < j < 36 ==> self.trit(j) == Trit::Z
                &&& forall|i: int| 0 <= i < 36 ==> r.0.trit(i) == self.shl_trit(r.1 as int, i)
            },
    {
        let mut k: usize = 36;
        while k > 0
            invariant_except_break
                k <= 36,
                forall|j: int| k <= j < 36 ==> self.trit(j) == Trit::Z,
                self.lead_zeros(36) == 36 - k + self.lead_zeros(k as int),
            ensures
                k <= 36,
                forall|j: int| k <= j < 36 ==> self.trit(j) == Trit::Z,
                k > 0 ==> self.trit(k - 1) != Trit::Z,
                self.lead_zeros(36) == 36 - k + self.lead_zeros(k as int),
            decreases k,
        {
            if self.get(k - 1) != Trit::Z {
                break;
            }
            k = k - 1;
        }
        if k == 0 {
            assert forall|i: int| 0 <= i < 36 implies self.shl_trit(0, i) == self.trit(i) by {}
            return (*self, 0);
        }
        let s = 36 - k;
        assert(self.trit(35 - s) != Trit::Z);
        (self.shl(s), s as i32)
    }
}

/// A number within the range of a word survives the trip through it: the
/// word made of it holds it exactly.
pub proof fn law_i64_roundtrip(v: int)
    requires
        -193710244 <= v <= 193710244,
    ensures
        wrap(v, 387420489) == v,
{
    crate::arith::lemma_wrap_small(v, 387420489);
}

} // verus!
