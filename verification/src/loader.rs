//! Punched-tape loader.
//!
//! Tape format: one tape row per syllable, every syllable single-sign.
//!
//! The loader is a straight-line program on page 0 (from −40). It
//! initiates reading once: LOADU1 copies the exchange-mode syllable into
//! u[−1] and sets the sync trigger a[−1]. Each read-completion interrupt
//! (handler [EXCHP, COPYG1, RETNMC] on ROM page 13) copies the byte from
//! the g buffer into the stack window; COPYG1 sets the sync trigger again,
//! so the next byte is requested automatically. The loader stores the
//! window senior syllable at the next fixed address (W=S) and finally
//! jumps to the loaded code (C=T).
//!
//! Page-0 layout (RAM):
//!   loader program:   −40..−9  (32 syllables)
//!   u[−1] cell:        10 = 26 (TAKE, dev 1)      [written by the loader]
//!   jump-target cell:  11 = 12 (loaded start)     [written by the loader]
//!   loaded code:       12..18
//!   loader constants:  19=26, 20=12, 21=269 (Ref1 h[0]@10), 22=−136 (Ref1 h[0]@11)
//!   loaded data:       28=addr syllable, 30=4, 31=9, 37=13
//!   store scratch:     35, 36  (the loaded demo stores 13 at m[0,36])

use vstd::prelude::*;
use crate::assembler::{op_tryte, op_value, ref_tryte, ref_value};
use crate::memory::Page;
use crate::trit::Trit;
use crate::tryte::Tryte;

verus! {

/// Where the loaded code lands.
pub const LOADED_START: i8 = 12;

/// Where the demo stores its result.
pub const RESULT_ADDR: i8 = 36;

/// Destination addresses of the tape bytes (fixed in the loader's Ref1
/// syllables).
pub const LOAD_ADDRS: [i8; 11] = [12, 13, 14, 15, 16, 17, 18, 30, 31, 28, 37];

/// Destination `k` of the tape bytes.
pub open spec fn load_addr(k: int) -> int {
    if k == 0 {
        12
    } else if k == 1 {
        13
    } else if k == 2 {
        14
    } else if k == 3 {
        15
    } else if k == 4 {
        16
    } else if k == 5 {
        17
    } else if k == 6 {
        18
    } else if k == 7 {
        30
    } else if k == 8 {
        31
    } else if k == 9 {
        28
    } else {
        37
    }
}

/// W=S (BASIC ko 4), LOADU1 (SPEC ko 5), C=T (BASIC ko 1), S+T (BASIC
/// ko 10) and a reference `Ref<len> h[0]@ka`, as syllable values.
pub open spec fn w_eq_s() -> int {
    op_value(0, 4)
}

pub open spec fn ref0(len: int, ka: int) -> int {
    ref_value(len, 0, ka)
}

/// Syllable `i` of the loader program, as a value:
/// `Ref1 h[0]@19, Ref1 h[0]@21, W=S, Ref1 h[0]@20, Ref1 h[0]@22, W=S,
/// Ref3 h[0]@10, LOADU1`, then `Ref1 h[0]@a, W=S` for each load address
/// `a`, then `Ref3 h[0]@11, C=T`.
pub open spec fn loader_value(i: int) -> int {
    if i == 0 {
        ref0(1, 19)
    } else if i == 1 {
        ref0(1, 21)
    } else if i == 2 || i == 5 {
        w_eq_s()
    } else if i == 3 {
        ref0(1, 20)
    } else if i == 4 {
        ref0(1, 22)
    } else if i == 6 {
        ref0(3, 10)
    } else if i == 7 {
        op_value(1, 5)
    } else if 8 <= i < 30 {
        if (i - 8) % 2 == 0 {
            ref0(1, load_addr((i - 8) / 2))
        } else {
            w_eq_s()
        }
    } else if i == 30 {
        ref0(3, 11)
    } else {
        op_value(0, 1)
    }
}

/// The loader program, as syllable values (32 of them).
pub open spec fn loader_values() -> Seq<int> {
    Seq::new(32, |i: int| loader_value(i))
}

/// Syllable `i` of the sample tape: `Ref3 h[0]@30, Ref3 h[0]@31, S+T,
/// Ref3 h[0]@28, W=S, Ref3 h[0]@37, C=T, =4, =9, =39, =13`.
pub open spec fn sample_value(i: int) -> int {
    if i == 0 {
        ref0(3, 30)
    } else if i == 1 {
        ref0(3, 31)
    } else if i == 2 {
        op_value(0, 10)
    } else if i == 3 {
        ref0(3, 28)
    } else if i == 4 {
        w_eq_s()
    } else if i == 5 {
        ref0(3, 37)
    } else if i == 6 {
        op_value(0, 1)
    } else if i == 7 {
        4
    } else if i == 8 {
        9
    } else if i == 9 {
        39
    } else {
        13
    }
}

/// The sample tape, as syllable values (11 of them).
pub open spec fn sample_values() -> Seq<int> {
    Seq::new(11, |i: int| sample_value(i))
}

/// The values of a sequence of syllables.
pub open spec fn values_of(v: Seq<Tryte>) -> Seq<int> {
    Seq::new(v.len(), |i: int| v[i].value())
}

/// The loader program (assembled), to be written at page 0 from −40.
pub fn loader_program() -> (r: Vec<Tryte>)
    ensures
        values_of(r@) == loader_values(),
{
    let mut out: Vec<Tryte> = Vec::new();
    out.push(ref_tryte(1, Trit::Z, 19));
    out.push(ref_tryte(1, Trit::Z, 21));
    out.push(op_tryte(Trit::Z, 4));
    out.push(ref_tryte(1, Trit::Z, 20));
    out.push(ref_tryte(1, Trit::Z, 22));
    out.push(op_tryte(Trit::Z, 4));
    out.push(ref_tryte(3, Trit::Z, 10));
    out.push(op_tryte(Trit::P, 5));
    let mut k: usize = 0;
    while k < 11
        invariant
            k <= 11,
            out@.len() == 8 + 2 * k,
            forall|i: int| 0 <= i < out@.len() ==> #[trigger] out@[i].value() == loader_value(i),
        decreases 11 - k,
    {
        let a = LOAD_ADDRS[k];
        assert(a == load_addr(k as int));
        out.push(ref_tryte(1, Trit::Z, a));
        assert(out@[8 + 2 * k].value() == loader_value(8 + 2 * k));
        out.push(op_tryte(Trit::Z, 4));
        assert(out@[9 + 2 * k].value() == loader_value(9 + 2 * k));
        k = k + 1;
    }
    out.push(ref_tryte(3, Trit::Z, 11));
    out.push(op_tryte(Trit::Z, 1));
    assert(values_of(out@) =~= loader_values());
    out
}

/// Loader constant cells: (address, value).
pub fn loader_constants() -> (r: [(i8, i16); 4])
    ensures
        r@ == seq![(19i8, 26i16), (20i8, 12i16), (21i8, 269i16), (22i8, -136i16)],
{
    let r = [(19, 26), (20, 12), (21, 269), (22, -136)];
    assert(r@ =~= seq![(19i8, 26i16), (20i8, 12i16), (21i8, 269i16), (22i8, -136i16)]);
    r
}

/// The read-completion vector (m[13,−39] = −30), the dispatcher C=T at
/// −13 and the handler EXCHP, COPYG1, RETNMC at −30..−28 on ROM page 13.
pub fn rom13_vectors(page13: &mut Page)
    ensures
        final(page13).at(-39).value() == -30,
        final(page13).at(-13).value() == op_value(0, 1),
        final(page13).at(-30).value() == op_value(1, -3),
        final(page13).at(-29).value() == op_value(1, -13),
        final(page13).at(-28).value() == op_value(1, 0),
        forall|a: int|
            -40 <= a <= 40 && a != -39 && a != -13 && a != -30 && a != -29 && a != -28
                ==> #[trigger] final(page13).at(a) == old(page13).at(a),
{
    let v = Tryte::from_i16(-30);
    proof {
        crate::arith::lemma_wrap_small(-30, 729);
    }
    page13.syllables[1] = v;
    page13.syllables[27] = op_tryte(Trit::Z, 1);
    page13.syllables[10] = op_tryte(Trit::P, -3);
    page13.syllables[11] = op_tryte(Trit::P, -13);
    page13.syllables[12] = op_tryte(Trit::P, 0);
}

/// A sample tape: the "4 + 9" demo in loaded form. Computes 13 and stores
/// it at m[0,36], then idles in a loop. All 11 syllables are single-sign.
/// Order matches LOAD_ADDRS: code at 12..18, data at 30, 31, 28, 37.
pub fn sample_tape() -> (r: Vec<Tryte>)
    ensures
        values_of(r@) == sample_values(),
{
    let mut out: Vec<Tryte> = Vec::new();
    out.push(ref_tryte(3, Trit::Z, 30));
    out.push(ref_tryte(3, Trit::Z, 31));
    out.push(op_tryte(Trit::Z, 10));
    out.push(ref_tryte(3, Trit::Z, 28));
    out.push(op_tryte(Trit::Z, 4));
    out.push(ref_tryte(3, Trit::Z, 37));
    out.push(op_tryte(Trit::Z, 1));
    let data: [i16; 4] = [4, 9, 39, 13];
    assert(data@ =~= seq![4i16, 9i16, 39i16, 13i16]);
    let mut i: usize = 0;
    while i < 4
        invariant
            i <= 4,
            data@ == seq![4i16, 9i16, 39i16, 13i16],
            out@.len() == 7 + i,
            forall|j: int| 0 <= j < out@.len() ==> #[trigger] out@[j].value() == sample_value(j),
        decreases 4 - i,
    {
        let t = Tryte::from_i16(data[i]);
        proof {
            crate::arith::lemma_wrap_small(data[i as int] as int, 729);
        }
        out.push(t);
        i = i + 1;
    }
    assert(values_of(out@) =~= sample_values());
    out
}

} // verus!
