//! Machine state and the execution cycle of Setun-70.
//!
//! T, S and t are aliases of stack-page cells addressed through p:
//!   T — the window itself:      m[ph, 3pa−1 : 3pa+1]   (3 syllables = 18 trits)
//!   S — the cell behind it:     m[ph, 3(pa−1)−1 : 3(pa−1)+1]
//!   t — senior syllable of T:   m[ph, 3pa−1]
//! The window value places syllable 3pa−1 in the senior tryte and syllable
//! 3pa+1 in the junior tryte.
//!
//! Decoding assumptions: operand length = k1 + 2 (N→1, Z→2, P→3); B1 "LST"
//! is a long shift of (S,Y) by t trits, B2 "COT" compares |S| against
//! 3^17/2, B3 "XNN" normalises (T,Y) with e := e + shift count; the MACRO
//! entry is (ch, ca) = (−13, −13) with the entry syllable m[−13, ka]
//! prefetched into the window.

use vstd::prelude::*;
use crate::arith::{pow3, lemma_pow3_small, wrap, lemma_wrap_unique, lemma_wrap_small, lemma_wrap_props};
use crate::io::{IoBus, bit};
use crate::memory::{MemError, Memory1, Memory2, Page, valid_addr, valid_page, ram_page, valid_drum};
use crate::registers::{field_val, lemma_field_range, InterruptCause, Mode, OpGroup, Registers, TritWord};
use crate::trit::Trit;
use crate::tryte::Tryte;
use crate::word::{DWord, Word};

verus! {

// ----------------------------------------------------------------------
// Specification vocabulary
// ----------------------------------------------------------------------

/// Senior syllable address of the window T.
pub open spec fn ws(r: Registers) -> int {
    3 * r.spec_pa() - 1
}

/// Senior syllable address of S, the cell behind the window.
pub open spec fn bs(r: Registers) -> int {
    3 * r.spec_pa() - 4
}

/// Value of the three syllables whose senior sits at (page, senior).
pub open spec fn word_val(m: Memory1, page: int, senior: int) -> int {
    m.cell(page, senior + 2).value() + 729 * m.cell(page, senior + 1).value() + 531441 * m.cell(
        page,
        senior,
    ).value()
}

/// Trit `j` (0..18, least significant first) of the word at (page, senior).
pub open spec fn word_trit(m: Memory1, page: int, senior: int, j: int) -> Trit {
    m.cell(page, senior + 2 - j / 6).trits[j % 6]
}

/// The memory holds the word `w` at (page, senior).
pub open spec fn holds_word(m: Memory1, page: int, senior: int, w: Word) -> bool {
    &&& m.cell(page, senior) == w.tryte_at(2)
    &&& m.cell(page, senior + 1) == w.tryte_at(1)
    &&& m.cell(page, senior + 2) == w.tryte_at(0)
}

/// The two memories agree everywhere except on page `page`, addresses lo..=hi.
pub open spec fn same_except(m2: Memory1, m1: Memory1, page: int, lo: int, hi: int) -> bool {
    forall|p: int, a: int|
        valid_page(p) && valid_addr(a) && !(p == page && lo <= a <= hi) ==> #[trigger] m2.cell(
            p,
            a,
        ) == m1.cell(p, a)
}

/// T, S and t as values.
pub open spec fn t_val(m: Memory1, r: Registers) -> int {
    word_val(m, r.spec_ph(), ws(r))
}

pub open spec fn s_val(m: Memory1, r: Registers) -> int {
    word_val(m, r.spec_ph(), bs(r))
}

pub open spec fn t_sen(m: Memory1, r: Registers) -> Tryte {
    m.cell(r.spec_ph(), ws(r))
}

pub open spec fn t_trit(m: Memory1, r: Registers, j: int) -> Trit {
    word_trit(m, r.spec_ph(), ws(r), j)
}

pub open spec fn s_trit(m: Memory1, r: Registers, j: int) -> Trit {
    word_trit(m, r.spec_ph(), bs(r), j)
}

/// A trit sequence after writing `v` into its field `from..=to`.
pub open spec fn field_written(new: Seq<Trit>, old: Seq<Trit>, from: int, to: int, v: int) -> bool {
    &&& new.len() == old.len()
    &&& field_val(new, from, to) == wrap(v, pow3((to - from + 1) as nat))
    &&& forall|i: int| 0 <= i < old.len() && !(from <= i <= to) ==> new[i] == old[i]
}

/// pa := pa − 1 (pop).
pub open spec fn popped(r2: Registers, r1: Registers) -> bool {
    field_written(r2.p.trits@, r1.p.trits@, 2, 4, r1.spec_pa() - 1)
}

/// pa := pa + 1 (push).
pub open spec fn pushed(r2: Registers, r1: Registers) -> bool {
    field_written(r2.p.trits@, r1.p.trits@, 2, 4, r1.spec_pa() + 1)
}

/// INCRC: ca := ca + 1; in user/macro mode, ca = 40 first raises v[9].
pub open spec fn incrc(r2: Registers, r1: Registers) -> bool {
    &&& field_written(r2.c.trits@, r1.c.trits@, 4, 7, r1.spec_ca() + 1)
    &&& r2.v.trits@ == (if r1.spec_mode() != Mode::Interrupt && r1.spec_ca() == 40 {
        r1.v.trits@.update(8, Trit::P)
    } else {
        r1.v.trits@
    })
}

/// ca := the value of a syllable (a jump): the syllable value, cut to 8
/// bits, then wrapped into the 4-trit field.
pub open spec fn jumped(r2: Registers, r1: Registers, target: Tryte) -> bool {
    field_written(r2.c.trits@, r1.c.trits@, 4, 7, (target.value() as i8) as int)
}

/// The usual epilogue of a popping operation: pop, INCRC, nothing else.
pub open spec fn pop_incrc(r2: Registers, r1: Registers) -> bool {
    &&& popped(r2, r1)
    &&& incrc(r2, r1)
}

/// Registers equal except c, p and v.
pub open spec fn regs_cpv(r2: Registers, r1: Registers) -> bool {
    r2 == (Registers { c: r2.c, p: r2.p, v: r2.v, ..r1 })
}

/// Junior and senior halves of a 36-trit value in balanced form.
pub open spec fn dw_lo(x: int) -> int {
    wrap(x, 387420489)
}

pub open spec fn dw_hi(x: int) -> int {
    (x - wrap(x, 387420489)) / 387420489
}

/// The 36-trit value of the long product T·R·3^2 plus an accumulator.
pub open spec fn long_mul(acc: int, a: int, b: int) -> int {
    wrap(acc + a * b * 9, 150094635296999121)
}

/// Operand length of an address syllable: k1 + 2.
pub open spec fn op_len(r: Registers) -> int {
    r.k.trits[0].val() + 2
}

/// Why the processor left the normal flow.
#[derive(Clone, Copy, Debug, PartialEq, Eq)]
pub enum Trap {
    /// FINISH: start := 0.
    Finish,
    /// A layer this machine does not implement.
    Unsupported(&'static str),
}

/// Internal control transfer: enter IR, or surface a trap to the caller.
pub enum Stop {
    Ir(InterruptCause),
    Trap(Trap),
}

/// Why `run` stopped.
#[derive(Clone, Copy, Debug, PartialEq, Eq)]
pub enum RunOutcome {
    /// start became 0 (FINISH).
    Finished,
    /// The step budget ran out (e.g. an idle loop).
    StepLimitExceeded,
    /// An unimplemented layer was hit.
    Trap(Trap),
}

// ----------------------------------------------------------------------
// Stack window access on (memory, registers)
// ----------------------------------------------------------------------

proof fn lemma_holds_word_val(m: Memory1, page: int, senior: int, w: Word)
    requires
        holds_word(m, page, senior, w),
    ensures
        word_val(m, page, senior) == w.value(),
        forall|j: int| 0 <= j < 18 ==> #[trigger] word_trit(m, page, senior, j) == w.trits[j],
{
    assert forall|j: int| 0 <= j < 18 implies #[trigger] word_trit(m, page, senior, j) == w.trits[j] by {
        let k = j / 6;
        assert(0 <= k < 3);
        assert(j == 6 * k + j % 6);
        if k == 0 {
            assert(m.cell(page, senior + 2) == w.tryte_at(0));
        } else if k == 1 {
            assert(m.cell(page, senior + 1) == w.tryte_at(1));
        } else {
            assert(m.cell(page, senior) == w.tryte_at(2));
        }
    }
}

/// The word whose senior syllable sits at (page, senior).
fn read_word_at(mem: &Memory1, page: i8, senior: i8) -> (r: Option<Word>)
    ensures
        r is Some <==> valid_page(page as int) && valid_addr(senior as int) && valid_addr(
            senior + 2,
        ),
        r matches Some(w) ==> holds_word(*mem, page as int, senior as int, w) && w.value()
            == word_val(*mem, page as int, senior as int),
{
    let hi = match mem.read(page, senior) {
        Some(t) => t,
        None => return None,
    };
    let mid = match mem.read(page, senior + 1) {
        Some(t) => t,
        None => return None,
    };
    let lo = match mem.read(page, senior + 2) {
        Some(t) => t,
        None => return None,
    };
    let w = Word::from_trytes(&lo, &mid, &hi);
    proof {
        lemma_holds_word_val(*mem, page as int, senior as int, w);
    }
    Some(w)
}

/// Stores `w` with its senior syllable at (page, senior) of a RAM page.
fn write_word_at(mem: &mut Memory1, page: i8, senior: i8, w: &Word) -> (r: Result<(), MemError>)
    requires
        ram_page(page as int),
        senior == -43 || -40 <= senior <= 38,
    ensures
        r is Ok <==> senior >= -40,
        r is Ok ==> holds_word(*final(mem), page as int, senior as int, *w) && same_except(
            *final(mem),
            *old(mem),
            page as int,
            senior as int,
            senior + 2,
        ),
        r is Err ==> *final(mem) == *old(mem),
{
    let (lo, mid, hi) = w.to_trytes();
    mem.write(page, senior + 2, lo)?;
    mem.write(page, senior + 1, mid)?;
    mem.write(page, senior, hi)?;
    Ok(())
}


/// The word of three cells, senior at (page, senior).
pub open spec fn word_of_cells(m: Memory1, page: int, senior: int) -> Word {
    Word {
        trits: [
            m.cell(page, senior + 2).trits[0],
            m.cell(page, senior + 2).trits[1],
            m.cell(page, senior + 2).trits[2],
            m.cell(page, senior + 2).trits[3],
            m.cell(page, senior + 2).trits[4],
            m.cell(page, senior + 2).trits[5],
            m.cell(page, senior + 1).trits[0],
            m.cell(page, senior + 1).trits[1],
            m.cell(page, senior + 1).trits[2],
            m.cell(page, senior + 1).trits[3],
            m.cell(page, senior + 1).trits[4],
            m.cell(page, senior + 1).trits[5],
            m.cell(page, senior).trits[0],
            m.cell(page, senior).trits[1],
            m.cell(page, senior).trits[2],
            m.cell(page, senior).trits[3],
            m.cell(page, senior).trits[4],
            m.cell(page, senior).trits[5],
        ],
    }
}

pub open spec fn t_word(m: Memory1, r: Registers) -> Word {
    word_of_cells(m, r.spec_ph(), ws(r))
}

pub open spec fn s_word(m: Memory1, r: Registers) -> Word {
    word_of_cells(m, r.spec_ph(), bs(r))
}

proof fn lemma_zero_trytes(w: Word)
    requires
        w.is_zero(),
    ensures
        w.tryte_at(0).is_zero(),
        w.tryte_at(1).is_zero(),
        w.tryte_at(2).is_zero(),
{
    assert forall|i: int| 0 <= i < 6 implies w.tryte_at(1).trits[i] == Trit::Z by {
        assert(w.tryte_at(1).trits[i] == w.trits[6 + i]);
    }
    assert forall|i: int| 0 <= i < 6 implies w.tryte_at(2).trits[i] == Trit::Z by {
        assert(w.tryte_at(2).trits[i] == w.trits[12 + i]);
    }
    assert forall|i: int| 0 <= i < 6 implies w.tryte_at(0).trits[i] == Trit::Z by {
        assert(w.tryte_at(0).trits[i] == w.trits[i]);
    }
}

proof fn lemma_holds_word_cells(m: Memory1, page: int, senior: int, w: Word)
    requires
        holds_word(m, page, senior, w),
    ensures
        w == word_of_cells(m, page, senior),
{
    assert(w.trits =~= word_of_cells(m, page, senior).trits) by {
        assert(m.cell(page, senior) == w.tryte_at(2));
        assert(m.cell(page, senior + 1) == w.tryte_at(1));
        assert(m.cell(page, senior + 2) == w.tryte_at(0));
    }
}

/// T — the stack window (always on the page: pa is a 3-trit field).
fn get_t(mem: &Memory1, regs: &Registers) -> (r: Word)
    ensures
        holds_word(*mem, regs.spec_ph(), ws(*regs), r),
        r == t_word(*mem, *regs),
        r.value() == t_val(*mem, *regs),
{
    proof {
        regs.lemma_ranges();
    }
    let w = read_word_at(mem, regs.ph(), 3 * regs.pa() - 1).unwrap();
    proof {
        lemma_holds_word_cells(*mem, regs.spec_ph(), ws(*regs), w);
    }
    w
}

/// S — absent when the window is at the bottom of the page (pa = −13).
fn get_s(mem: &Memory1, regs: &Registers) -> (r: Option<Word>)
    ensures
        r is Some <==> regs.spec_pa() != -13,
        r matches Some(w) ==> holds_word(*mem, regs.spec_ph(), bs(*regs), w) && w == s_word(
            *mem,
            *regs,
        ) && w.value() == s_val(*mem, *regs),
{
    proof {
        regs.lemma_ranges();
    }
    let r = read_word_at(mem, regs.ph(), 3 * regs.pa() - 4);
    proof {
        if let Some(w) = r {
            lemma_holds_word_cells(*mem, regs.spec_ph(), bs(*regs), w);
        }
    }
    r
}

/// t — the senior syllable of the window.
fn get_t_senior(mem: &Memory1, regs: &Registers) -> (r: Tryte)
    ensures
        r == t_sen(*mem, *regs),
{
    proof {
        regs.lemma_ranges();
    }
    mem.read(regs.ph(), 3 * regs.pa() - 1).unwrap()
}

/// T := w.
fn put_t(mem: &mut Memory1, regs: &Registers, w: &Word)
    ensures
        holds_word(*final(mem), regs.spec_ph(), ws(*regs), *w),
        same_except(*final(mem), *old(mem), regs.spec_ph(), ws(*regs), ws(*regs) + 2),
{
    proof {
        regs.lemma_ranges();
    }
    let r = write_word_at(mem, regs.ph(), 3 * regs.pa() - 1, w);
}

/// S := w; fails (no change) when pa = −13.
fn put_s(mem: &mut Memory1, regs: &Registers, w: &Word) -> (r: Result<(), Stop>)
    ensures
        r is Ok <==> regs.spec_pa() != -13,
        r is Ok ==> holds_word(*final(mem), regs.spec_ph(), bs(*regs), *w) && same_except(
            *final(mem),
            *old(mem),
            regs.spec_ph(),
            bs(*regs),
            bs(*regs) + 2,
        ),
        r is Err ==> *final(mem) == *old(mem),
{
    proof {
        regs.lemma_ranges();
    }
    match write_word_at(mem, regs.ph(), 3 * regs.pa() - 4, w) {
        Ok(()) => Ok(()),
        Err(_) => Err(Stop::Ir(InterruptCause::StackExhausted)),
    }
}

/// t := v.
fn put_t_senior(mem: &mut Memory1, regs: &Registers, v: Tryte)
    ensures
        final(mem).cell(regs.spec_ph(), ws(*regs)) == v,
        same_except(*final(mem), *old(mem), regs.spec_ph(), ws(*regs), ws(*regs)),
{
    proof {
        regs.lemma_ranges();
    }
    let r = mem.write(regs.ph(), 3 * regs.pa() - 1, v);
}

/// pa := pa − 1.
fn pop(regs: &mut Registers)
    ensures
        popped(*final(regs), *old(regs)),
        *final(regs) == (Registers { p: final(regs).p, ..*old(regs) }),
{
    proof {
        old(regs).lemma_ranges();
        lemma_pow3_small();
    }
    let pa = regs.pa();
    regs.set_pa(pa - 1);
}

/// INCRC: ca := ca + 1; in user/macro mode, ca = 40 first raises the
/// page-exhausted request v[9].
fn inc_rc(regs: &mut Registers)
    ensures
        incrc(*final(regs), *old(regs)),
        *final(regs) == (Registers { c: final(regs).c, v: final(regs).v, ..*old(regs) }),
{
    proof {
        old(regs).lemma_ranges();
        lemma_pow3_small();
    }
    if regs.mode() != Mode::Interrupt && regs.ca() == 40 {
        regs.v.set_trit(8, Trit::P);
    }
    let ca = regs.ca();
    regs.set_ca(ca + 1);
}

/// ca := the value of syllable `t` (cut to 8 bits, wrapped into the field).
fn jump(regs: &mut Registers, t: &Tryte)
    ensures
        jumped(*final(regs), *old(regs), *t),
        *final(regs) == (Registers { c: final(regs).c, ..*old(regs) }),
{
    proof {
        lemma_pow3_small();
    }
    regs.set_ca(#[verifier::truncate] (t.to_i16() as i8));
}


// ----------------------------------------------------------------------
// BASIC group: specifications
// ----------------------------------------------------------------------

/// Nothing changed and the interrupt `cause` is requested.
pub open spec fn unchanged_ir(
    m1: Memory1,
    r1: Registers,
    m2: Memory1,
    r2: Registers,
    res: Result<(), Stop>,
    cause: InterruptCause,
) -> bool {
    &&& res matches Err(Stop::Ir(c)) && c == cause
    &&& m2 == m1
    &&& r2 == r1
}

/// S := v (a value); pop; INCRC — or StackExhausted when there is no S.
pub open spec fn s_gets(
    m1: Memory1,
    r1: Registers,
    m2: Memory1,
    r2: Registers,
    res: Result<(), Stop>,
    v: int,
) -> bool {
    if r1.spec_pa() == -13 {
        unchanged_ir(m1, r1, m2, r2, res, InterruptCause::StackExhausted)
    } else {
        &&& res is Ok
        &&& word_val(m2, r1.spec_ph(), bs(r1)) == v
        &&& same_except(m2, m1, r1.spec_ph(), bs(r1), bs(r1) + 2)
        &&& pop_incrc(r2, r1)
        &&& regs_cpv(r2, r1)
    }
}

/// T := v (a value) in place; INCRC.
pub open spec fn t_gets(m1: Memory1, r1: Registers, m2: Memory1, r2: Registers, res: Result<(), Stop>, v: int) -> bool {
    &&& res is Ok
    &&& word_val(m2, r1.spec_ph(), ws(r1)) == v
    &&& same_except(m2, m1, r1.spec_ph(), ws(r1), ws(r1) + 2)
    &&& incrc(r2, r1)
    &&& r2 == (Registers { c: r2.c, v: r2.v, ..r1 })
}

/// Trit-wise SAT: a zero trit of S takes T's trit; opposite nonzero trits
/// cancel; otherwise S's trit stays.
pub open spec fn sat_trit(a: Trit, b: Trit) -> Trit {
    if a == Trit::Z {
        b
    } else if a != b && b != Trit::Z {
        Trit::Z
    } else {
        a
    }
}

/// The double word (S, Y) or (T, Y).
pub open spec fn sy(m: Memory1, r: Registers) -> DWord {
    DWord { hi: s_word(m, r), lo: r.y }
}

pub open spec fn ty(m: Memory1, r: Registers) -> DWord {
    DWord { hi: t_word(m, r), lo: r.y }
}

/// Trit `i` of `x` shifted by `n` (senior-wards for n ≥ 0, junior-wards
/// for n < 0), 36 trits kept.
pub open spec fn shifted(x: DWord, n: int, i: int) -> Trit {
    if 0 <= i - n < 36 {
        x.trit(i - n)
    } else {
        Trit::Z
    }
}

/// B1 LST: (S,Y) := (S,Y)·3^t; pop; INCRC.
pub open spec fn lst_spec(m1: Memory1, r1: Registers, m2: Memory1, r2: Registers, res: Result<(), Stop>) -> bool {
    if r1.spec_pa() == -13 {
        unchanged_ir(m1, r1, m2, r2, res, InterruptCause::StackExhausted)
    } else {
        let n = t_sen(m1, r1).value();
        let x = sy(m1, r1);
        &&& res is Ok
        &&& forall|j: int| 0 <= j < 18 ==> #[trigger] word_trit(m2, r1.spec_ph(), bs(r1), j) == shifted(x, n, j + 18)
        &&& forall|j: int| 0 <= j < 18 ==> #[trigger] r2.y.trits[j] == shifted(x, n, j)
        &&& same_except(m2, m1, r1.spec_ph(), bs(r1), bs(r1) + 2)
        &&& pop_incrc(r2, r1)
        &&& r2 == (Registers { c: r2.c, p: r2.p, v: r2.v, y: r2.y, ..r1 })
    }
}

/// B2 COT: if |S| > 64570081 (i.e. |S| ≥ 3^17/2) then ca := t else INCRC; pop.
pub open spec fn cot_spec(m1: Memory1, r1: Registers, m2: Memory1, r2: Registers, res: Result<(), Stop>) -> bool {
    if r1.spec_pa() == -13 {
        unchanged_ir(m1, r1, m2, r2, res, InterruptCause::StackExhausted)
    } else {
        let s = s_val(m1, r1);
        &&& res is Ok
        &&& m2 == m1
        &&& popped(r2, r1)
        &&& if s > 64570081 || s < -64570081 {
            jumped(r2, r1, t_sen(m1, r1)) && r2.v == r1.v
        } else {
            incrc(r2, r1)
        }
        &&& regs_cpv(r2, r1)
    }
}

/// B3 XNN: normalise (T,Y) senior-wards; e := e + shift; INCRC.
pub open spec fn xnn_spec(m1: Memory1, r1: Registers, m2: Memory1, r2: Registers, res: Result<(), Stop>) -> bool {
    let x = ty(m1, r1);
    let k = x.norm_shift();
    &&& res is Ok
    &&& forall|j: int| 0 <= j < 18 ==> #[trigger] word_trit(m2, r1.spec_ph(), ws(r1), j) == shifted(x, k, j + 18)
    &&& forall|j: int| 0 <= j < 18 ==> #[trigger] r2.y.trits[j] == shifted(x, k, j)
    &&& r2.e.value() == wrap(r1.e.value() + k, 729)
    &&& same_except(m2, m1, r1.spec_ph(), ws(r1), ws(r1) + 2)
    &&& incrc(r2, r1)
    &&& r2 == (Registers { c: r2.c, v: r2.v, y: r2.y, e: r2.e, ..r1 })
}

/// e := v (a value); INCRC.
pub open spec fn e_gets(m1: Memory1, r1: Registers, m2: Memory1, r2: Registers, res: Result<(), Stop>, v: int) -> bool {
    &&& res is Ok
    &&& m2 == m1
    &&& r2.e.value() == v
    &&& incrc(r2, r1)
    &&& r2 == (Registers { c: r2.c, v: r2.v, e: r2.e, ..r1 })
}

/// B8 E=T: e := t; pop; INCRC.
pub open spec fn e_eq_t_spec(m1: Memory1, r1: Registers, m2: Memory1, r2: Registers, res: Result<(), Stop>) -> bool {
    &&& res is Ok
    &&& m2 == m1
    &&& r2.e == t_sen(m1, r1)
    &&& pop_incrc(r2, r1)
    &&& r2 == (Registers { c: r2.c, p: r2.p, v: r2.v, e: r2.e, ..r1 })
}

/// B10..B12: if cond(S) then ca := t else INCRC; pop.
pub open spec fn cond_spec(m1: Memory1, r1: Registers, m2: Memory1, r2: Registers, res: Result<(), Stop>, taken: bool) -> bool {
    if r1.spec_pa() == -13 {
        unchanged_ir(m1, r1, m2, r2, res, InterruptCause::StackExhausted)
    } else {
        &&& res is Ok
        &&& m2 == m1
        &&& popped(r2, r1)
        &&& if taken {
            jumped(r2, r1, t_sen(m1, r1)) && r2.v == r1.v
        } else {
            incrc(r2, r1)
        }
        &&& regs_cpv(r2, r1)
    }
}

/// B13 T=C: T := 0; t := ca; INCRC.
pub open spec fn t_eq_c_spec(m1: Memory1, r1: Registers, m2: Memory1, r2: Registers, res: Result<(), Stop>) -> bool {
    &&& res is Ok
    &&& m2.cell(r1.spec_ph(), ws(r1)).value() == r1.spec_ca()
    &&& m2.cell(r1.spec_ph(), ws(r1) + 1).is_zero()
    &&& m2.cell(r1.spec_ph(), ws(r1) + 2).is_zero()
    &&& same_except(m2, m1, r1.spec_ph(), ws(r1), ws(r1) + 2)
    &&& incrc(r2, r1)
    &&& r2 == (Registers { c: r2.c, v: r2.v, ..r1 })
}

/// B14 R=T, B20 Y=T: the register takes T; pop; INCRC.
pub open spec fn reg_from_t_spec(m1: Memory1, r1: Registers, m2: Memory1, r2: Registers, res: Result<(), Stop>, to_r: bool) -> bool {
    &&& res is Ok
    &&& m2 == m1
    &&& pop_incrc(r2, r1)
    &&& if to_r {
        r2 == (Registers { c: r2.c, p: r2.p, v: r2.v, r: t_word(m1, r1), ..r1 })
    } else {
        r2 == (Registers { c: r2.c, p: r2.p, v: r2.v, y: t_word(m1, r1), ..r1 })
    }
}

/// B15 C=T: ca := t; pop (no INCRC).
pub open spec fn c_eq_t_spec(m1: Memory1, r1: Registers, m2: Memory1, r2: Registers, res: Result<(), Stop>) -> bool {
    &&& res is Ok
    &&& m2 == m1
    &&& popped(r2, r1)
    &&& jumped(r2, r1, t_sen(m1, r1))
    &&& r2 == (Registers { c: r2.c, p: r2.p, ..r1 })
}

/// B17 YFT: Y := 0; pop; INCRC.
pub open spec fn yft_spec(m1: Memory1, r1: Registers, m2: Memory1, r2: Registers, res: Result<(), Stop>) -> bool {
    &&& res is Ok
    &&& m2 == m1
    &&& r2.y.is_zero()
    &&& pop_incrc(r2, r1)
    &&& r2 == (Registers { c: r2.c, p: r2.p, v: r2.v, y: r2.y, ..r1 })
}

/// B19 SMT, B21 SAT: S := f(S, T) trit by trit; pop; INCRC.
pub open spec fn s_tritwise(m1: Memory1, r1: Registers, m2: Memory1, r2: Registers, res: Result<(), Stop>, is_sat: bool) -> bool {
    if r1.spec_pa() == -13 {
        unchanged_ir(m1, r1, m2, r2, res, InterruptCause::StackExhausted)
    } else {
        &&& res is Ok
        &&& forall|j: int| 0 <= j < 18 ==> #[trigger] word_trit(m2, r1.spec_ph(), bs(r1), j) == (if is_sat {
            sat_trit(s_trit(m1, r1, j), t_trit(m1, r1, j))
        } else {
            Trit::of(s_trit(m1, r1, j).val() * t_trit(m1, r1, j).val())
        })
        &&& same_except(m2, m1, r1.spec_ph(), bs(r1), bs(r1) + 2)
        &&& pop_incrc(r2, r1)
        &&& regs_cpv(r2, r1)
    }
}

/// B23 TDN: T := −T in place; INCRC.
pub open spec fn tdn_spec(m1: Memory1, r1: Registers, m2: Memory1, r2: Registers, res: Result<(), Stop>) -> bool {
    &&& res is Ok
    &&& forall|j: int| 0 <= j < 18 ==> (#[trigger] word_trit(m2, r1.spec_ph(), ws(r1), j)).val() == -t_trit(m1, r1, j).val()
    &&& word_val(m2, r1.spec_ph(), ws(r1)) == -t_val(m1, r1)
    &&& same_except(m2, m1, r1.spec_ph(), ws(r1), ws(r1) + 2)
    &&& incrc(r2, r1)
    &&& r2 == (Registers { c: r2.c, v: r2.v, ..r1 })
}

/// B25 LBT, B26 L*T, B27 LHT: the long product.
///   LBT: (S,Y) := S·3^18 + T·R·3^2
///   L*T: R := S; (S,Y) := T·R·3^2
///   LHT: (S,Y) := (S,Y) + T·R·3^2
/// each modulo 3^36; pop; INCRC.
pub open spec fn long_spec(m1: Memory1, r1: Registers, m2: Memory1, r2: Registers, res: Result<(), Stop>, which: int) -> bool {
    if r1.spec_pa() == -13 {
        unchanged_ir(m1, r1, m2, r2, res, InterruptCause::StackExhausted)
    } else {
        let s = s_val(m1, r1);
        let t = t_val(m1, r1);
        let x = if which == 0 {
            long_mul(0, t, r1.r.value())
        } else if which == 1 {
            long_mul(0, t, s)
        } else {
            long_mul(r1.y.value(), t, r1.r.value())
        };
        let hi = if which == 1 { dw_hi(x) } else { wrap(dw_hi(x) + s, 387420489) };
        &&& res is Ok
        &&& r2.y.value() == dw_lo(x)
        &&& word_val(m2, r1.spec_ph(), bs(r1)) == hi
        &&& same_except(m2, m1, r1.spec_ph(), bs(r1), bs(r1) + 2)
        &&& pop_incrc(r2, r1)
        &&& if which == 1 {
            r2 == (Registers { c: r2.c, p: r2.p, v: r2.v, y: r2.y, r: s_word(m1, r1), ..r1 })
        } else {
            r2 == (Registers { c: r2.c, p: r2.p, v: r2.v, y: r2.y, ..r1 })
        }
    }
}


/// REFSYL: T := 0, then the `len` syllables whose senior sits at ka on page
/// h[k2] fill the senior part of the window; INCRC. In user/macro mode an
/// operand reaching below address −39 is refused (OperandCrossPage); in any
/// mode an operand off the page is refused.
pub open spec fn refsyl_spec(m1: Memory1, r1: Registers, m2: Memory1, r2: Registers, res: Result<(), Stop>) -> bool {
    let len = op_len(r1);
    let ka = r1.spec_ka();
    let page = r1.spec_h(r1.k.trits[1]);
    let ph = r1.spec_ph();
    if (r1.spec_mode() != Mode::Interrupt && ka - len < -40) || !valid_addr(ka - len + 1) {
        unchanged_ir(m1, r1, m2, r2, res, InterruptCause::OperandCrossPage)
    } else {
        &&& res is Ok
        &&& m2.cell(ph, ws(r1)) == m1.cell(page, ka)
        &&& (len >= 2 ==> m2.cell(ph, ws(r1) + 1) == m1.cell(page, ka - 1))
        &&& (len < 2 ==> m2.cell(ph, ws(r1) + 1).is_zero())
        &&& (len == 3 ==> m2.cell(ph, ws(r1) + 2) == m1.cell(page, ka - 2))
        &&& (len < 3 ==> m2.cell(ph, ws(r1) + 2).is_zero())
        &&& same_except(m2, m1, ph, ws(r1), ws(r1) + 2)
        &&& incrc(r2, r1)
        &&& r2 == (Registers { c: r2.c, v: r2.v, ..r1 })
    }
}

/// The registers with k := the syllable t.
pub open spec fn with_k(r: Registers, t: Tryte) -> Registers {
    Registers { k: TritWord { trits: t.trits }, ..r }
}

/// B16 T=W: k := t; REFSYL.
pub open spec fn t_eq_w_spec(m1: Memory1, r1: Registers, m2: Memory1, r2: Registers, res: Result<(), Stop>) -> bool {
    refsyl_spec(m1, with_k(r1, t_sen(m1, r1)), m2, r2, res)
}

/// B18 W=S: k := t; the senior `len` syllables of S are stored at
/// m[h[k2], ka−len+1 ..= ka] when h[k2] is a RAM page; pop; INCRC.
pub open spec fn w_eq_s_spec(m1: Memory1, r1: Registers, m2: Memory1, r2: Registers, res: Result<(), Stop>) -> bool {
    let rk = with_k(r1, t_sen(m1, r1));
    let len = op_len(rk);
    let ka = rk.spec_ka();
    let page = rk.spec_h(rk.k.trits[1]);
    if r1.spec_mode() != Mode::Interrupt && ka - len < -40 {
        unchanged_ir(m1, rk, m2, r2, res, InterruptCause::OperandCrossPage)
    } else if ram_page(page) && r1.spec_pa() == -13 {
        unchanged_ir(m1, rk, m2, r2, res, InterruptCause::StackExhausted)
    } else {
        &&& forall|p: int, a: int|
            valid_page(p) && valid_addr(a) ==> #[trigger] m2.cell(p, a) == (if ram_page(page) && p
                == page && ka - len < a <= ka {
                m1.cell(r1.spec_ph(), bs(r1) + ka - a)
            } else {
                m1.cell(p, a)
            })
        &&& if ram_page(page) && !valid_addr(ka - len + 1) {
            &&& res matches Err(Stop::Ir(c)) && c == InterruptCause::ForbiddenSyllable
            &&& r2 == rk
        } else {
            &&& res is Ok
            &&& pop_incrc(r2, rk)
            &&& regs_cpv(r2, rk)
        }
    }
}

/// The BASIC group B1..B27 (ko −13..=13).
pub open spec fn basic_spec(m1: Memory1, r1: Registers, m2: Memory1, r2: Registers, res: Result<(), Stop>) -> bool {
    let s = s_val(m1, r1);
    let t = t_val(m1, r1);
    let e = r1.e.value();
    let ko = r1.spec_ko();
    if r1.spec_mode() != Mode::Interrupt && r1.spec_pa() == -13 {
        unchanged_ir(m1, r1, m2, r2, res, InterruptCause::StackExhausted)
    } else if ko == -13 {
        lst_spec(m1, r1, m2, r2, res)
    } else if ko == -12 {
        cot_spec(m1, r1, m2, r2, res)
    } else if ko == -11 {
        xnn_spec(m1, r1, m2, r2, res)
    } else if ko == -10 {
        e_gets(m1, r1, m2, r2, res, wrap(e - 1, 729))
    } else if ko == -9 {
        e_gets(m1, r1, m2, r2, res, 0)
    } else if ko == -8 {
        e_gets(m1, r1, m2, r2, res, wrap(e + 1, 729))
    } else if ko == -7 {
        t_gets(m1, r1, m2, r2, res, wrap(t - e * 531441, 387420489))
    } else if ko == -6 {
        e_eq_t_spec(m1, r1, m2, r2, res)
    } else if ko == -5 {
        t_gets(m1, r1, m2, r2, res, wrap(t + e * 531441, 387420489))
    } else if ko == -4 {
        cond_spec(m1, r1, m2, r2, res, s < 0)
    } else if ko == -3 {
        cond_spec(m1, r1, m2, r2, res, s == 0)
    } else if ko == -2 {
        cond_spec(m1, r1, m2, r2, res, s > 0)
    } else if ko == -1 {
        t_eq_c_spec(m1, r1, m2, r2, res)
    } else if ko == 0 {
        reg_from_t_spec(m1, r1, m2, r2, res, true)
    } else if ko == 1 {
        c_eq_t_spec(m1, r1, m2, r2, res)
    } else if ko == 2 {
        t_eq_w_spec(m1, r1, m2, r2, res)
    } else if ko == 3 {
        yft_spec(m1, r1, m2, r2, res)
    } else if ko == 4 {
        w_eq_s_spec(m1, r1, m2, r2, res)
    } else if ko == 5 {
        s_tritwise(m1, r1, m2, r2, res, false)
    } else if ko == 6 {
        reg_from_t_spec(m1, r1, m2, r2, res, false)
    } else if ko == 7 {
        s_tritwise(m1, r1, m2, r2, res, true)
    } else if ko == 8 {
        s_gets(m1, r1, m2, r2, res, wrap(s - t, 387420489))
    } else if ko == 9 {
        tdn_spec(m1, r1, m2, r2, res)
    } else if ko == 10 {
        s_gets(m1, r1, m2, r2, res, wrap(s + t, 387420489))
    } else if ko == 11 {
        long_spec(m1, r1, m2, r2, res, 0)
    } else if ko == 12 {
        long_spec(m1, r1, m2, r2, res, 1)
    } else {
        long_spec(m1, r1, m2, r2, res, 2)
    }
}

// ----------------------------------------------------------------------
// BASIC group: operations
// ----------------------------------------------------------------------

proof fn lemma_same_except_trans(m3: Memory1, m2: Memory1, m1: Memory1, page: int, lo: int, hi: int, lo2: int, hi2: int)
    requires
        same_except(m3, m2, page, lo2, hi2),
        same_except(m2, m1, page, lo, hi),
        lo <= lo2,
        hi2 <= hi,
    ensures
        same_except(m3, m1, page, lo, hi),
{
    assert forall|p: int, a: int|
        valid_page(p) && valid_addr(a) && !(p == page && lo <= a <= hi) implies #[trigger] m3.cell(p, a) == m1.cell(p, a) by {
        assert(m3.cell(p, a) == m2.cell(p, a));
    }
}

fn op_lst(mem: &mut Memory1, regs: &mut Registers) -> (res: Result<(), Stop>)
    ensures
        lst_spec(*old(mem), *old(regs), *final(mem), *final(regs), res),
{
    let s = match get_s(mem, regs) {
        Some(s) => s,
        None => return Err(Stop::Ir(InterruptCause::StackExhausted)),
    };
    let x = DWord::new(s, regs.y);
    let t = get_t_senior(mem, regs).to_i16();
    let x2 = if t >= 0 {
        x.shl(t as usize)
    } else {
        x.shr((-t) as usize)
    };
    let ghost m1 = *mem;
    let ghost r1 = *regs;
    let _ = put_s(mem, regs, &x2.hi);
    regs.y = x2.lo;
    pop(regs);
    inc_rc(regs);
    proof {
        lemma_holds_word_val(*mem, r1.spec_ph(), bs(r1), x2.hi);
        assert forall|j: int| 0 <= j < 18 implies #[trigger] regs.y.trits[j] == shifted(x, t as int, j) by {
            assert(x2.trit(j) == regs.y.trits[j]);
        }
        assert forall|j: int| 0 <= j < 18 implies #[trigger] word_trit(*mem, r1.spec_ph(), bs(r1), j) == shifted(x, t as int, j + 18) by {
            assert(x2.trit(j + 18) == x2.hi.trits[j]);
        }
    }
    Ok(())
}

/// |S| ≥ 3^17/2, computed as the sign of |S| − 64570081.
fn abs_exceeds_half(s: &Word) -> (r: bool)
    ensures
        r == (s.value() > 64570081 || s.value() < -64570081),
{
    let a = s.abs();
    let diff = a.sub(&Word::from_i64(64_570_081));
    proof {
        lemma_wrap_small(64570081, 387420489);
        s.lemma_range();
        lemma_wrap_small(a.value() - 64570081, 387420489);
    }
    diff.to_i64() > 0
}

fn op_cot(mem: &mut Memory1, regs: &mut Registers) -> (res: Result<(), Stop>)
    ensures
        cot_spec(*old(mem), *old(regs), *final(mem), *final(regs), res),
{
    let s = match get_s(mem, regs) {
        Some(s) => s,
        None => return Err(Stop::Ir(InterruptCause::StackExhausted)),
    };
    let t = get_t_senior(mem, regs);
    let big = abs_exceeds_half(&s);
    pop(regs);
    if big {
        jump(regs, &t);
    } else {
        inc_rc(regs);
    }
    Ok(())
}

fn op_xnn(mem: &mut Memory1, regs: &mut Registers) -> (res: Result<(), Stop>)
    ensures
        xnn_spec(*old(mem), *old(regs), *final(mem), *final(regs), res),
{
    let t = get_t(mem, regs);
    let x = DWord::new(t, regs.y);
    let (x2, i) = x.normalize();
    let ghost r1 = *regs;
    proof {
        assert(x == ty(*mem, *regs));
        lemma_pow3_small();
    }
    let e = regs.e.add(&Tryte::from_i16(i as i16));
    proof {
        lemma_wrap_small(i as int, 729);
    }
    regs.e = e;
    put_t(mem, regs, &x2.hi);
    regs.y = x2.lo;
    inc_rc(regs);
    proof {
        lemma_holds_word_val(*mem, r1.spec_ph(), ws(r1), x2.hi);
        assert forall|j: int| 0 <= j < 18 implies #[trigger] regs.y.trits[j] == shifted(x, x.norm_shift(), j) by {
            assert(x2.trit(j) == regs.y.trits[j]);
        }
        assert forall|j: int| 0 <= j < 18 implies #[trigger] word_trit(*mem, r1.spec_ph(), ws(r1), j) == shifted(x, x.norm_shift(), j + 18) by {
            assert(x2.trit(j + 18) == x2.hi.trits[j]);
        }
    }
    Ok(())
}

fn op_e_add(mem: &mut Memory1, regs: &mut Registers, d: i16) -> (res: Result<(), Stop>)
    requires
        -1 <= d <= 1,
    ensures
        e_gets(*old(mem), *old(regs), *final(mem), *final(regs), res, wrap(old(regs).e.value() + d, 729)),
{
    let e = regs.e.add(&Tryte::from_i16(d));
    proof {
        lemma_wrap_small(d as int, 729);
    }
    regs.e = e;
    inc_rc(regs);
    Ok(())
}

fn op_e_zero(mem: &mut Memory1, regs: &mut Registers) -> (res: Result<(), Stop>)
    ensures
        e_gets(*old(mem), *old(regs), *final(mem), *final(regs), res, 0),
{
    regs.e = Tryte::zero();
    inc_rc(regs);
    Ok(())
}

fn op_t_e(mem: &mut Memory1, regs: &mut Registers, minus: bool) -> (res: Result<(), Stop>)
    ensures
        t_gets(*old(mem), *old(regs), *final(mem), *final(regs), res, if minus {
            wrap(t_val(*old(mem), *old(regs)) - old(regs).e.value() * 531441, 387420489)
        } else {
            wrap(t_val(*old(mem), *old(regs)) + old(regs).e.value() * 531441, 387420489)
        }),
{
    let t = get_t(mem, regs);
    let z = Tryte::zero();
    let aligned = Word::from_trytes(&z, &z, &regs.e);
    let r = if minus {
        t.sub(&aligned)
    } else {
        t.add(&aligned)
    };
    let ghost r1 = *regs;
    put_t(mem, regs, &r);
    inc_rc(regs);
    proof {
        lemma_holds_word_val(*mem, r1.spec_ph(), ws(r1), r);
    }
    Ok(())
}

fn op_e_eq_t(mem: &mut Memory1, regs: &mut Registers) -> (res: Result<(), Stop>)
    ensures
        e_eq_t_spec(*old(mem), *old(regs), *final(mem), *final(regs), res),
{
    let t = get_t_senior(mem, regs);
    regs.e = t;
    pop(regs);
    inc_rc(regs);
    Ok(())
}

/// B10..B12: kind −1 (S < 0), 0 (S = 0), +1 (S > 0).
fn op_cond(mem: &mut Memory1, regs: &mut Registers, kind: i8) -> (res: Result<(), Stop>)
    requires
        -1 <= kind <= 1,
    ensures
        cond_spec(*old(mem), *old(regs), *final(mem), *final(regs), res, if kind < 0 {
            s_val(*old(mem), *old(regs)) < 0
        } else if kind == 0 {
            s_val(*old(mem), *old(regs)) == 0
        } else {
            s_val(*old(mem), *old(regs)) > 0
        }),
{
    let s = match get_s(mem, regs) {
        Some(s) => s,
        None => return Err(Stop::Ir(InterruptCause::StackExhausted)),
    };
    let t = get_t_senior(mem, regs);
    pop(regs);
    let v = s.to_i64();
    let taken = if kind < 0 {
        v < 0
    } else if kind == 0 {
        v == 0
    } else {
        v > 0
    };
    if taken {
        jump(regs, &t);
    } else {
        inc_rc(regs);
    }
    Ok(())
}

fn op_t_eq_c(mem: &mut Memory1, regs: &mut Registers) -> (res: Result<(), Stop>)
    ensures
        t_eq_c_spec(*old(mem), *old(regs), *final(mem), *final(regs), res),
{
    proof {
        regs.lemma_ranges();
    }
    let ca = regs.ca();
    let ghost m1 = *mem;
    put_t(mem, regs, &Word::zero());
    let ghost m2 = *mem;
    let v = Tryte::from_i16(ca as i16);
    proof {
        lemma_wrap_small(ca as int, 729);
    }
    put_t_senior(mem, regs, v);
    proof {
        lemma_same_except_trans(*mem, m2, m1, regs.spec_ph(), ws(*regs), ws(*regs) + 2, ws(*regs), ws(*regs));
    }
    inc_rc(regs);
    Ok(())
}

fn op_reg_from_t(mem: &mut Memory1, regs: &mut Registers, to_r: bool) -> (res: Result<(), Stop>)
    ensures
        reg_from_t_spec(*old(mem), *old(regs), *final(mem), *final(regs), res, to_r),
{
    let t = get_t(mem, regs);
    if to_r {
        regs.r = t;
    } else {
        regs.y = t;
    }
    pop(regs);
    inc_rc(regs);
    Ok(())
}

fn op_c_eq_t(mem: &mut Memory1, regs: &mut Registers) -> (res: Result<(), Stop>)
    ensures
        c_eq_t_spec(*old(mem), *old(regs), *final(mem), *final(regs), res),
{
    let t = get_t_senior(mem, regs);
    jump(regs, &t);
    pop(regs);
    Ok(())
}

fn op_yft(mem: &mut Memory1, regs: &mut Registers) -> (res: Result<(), Stop>)
    ensures
        yft_spec(*old(mem), *old(regs), *final(mem), *final(regs), res),
{
    regs.y = Word::zero();
    pop(regs);
    inc_rc(regs);
    Ok(())
}

fn op_s_tritwise(mem: &mut Memory1, regs: &mut Registers, is_sat: bool) -> (res: Result<(), Stop>)
    ensures
        s_tritwise(*old(mem), *old(regs), *final(mem), *final(regs), res, is_sat),
{
    let t = get_t(mem, regs);
    let s = match get_s(mem, regs) {
        Some(s) => s,
        None => return Err(Stop::Ir(InterruptCause::StackExhausted)),
    };
    let ghost m1 = *mem;
    let ghost r1 = *regs;
    proof {
        lemma_holds_word_val(m1, r1.spec_ph(), ws(r1), t);
        lemma_holds_word_val(m1, r1.spec_ph(), bs(r1), s);
    }
    let mut out = s.trits;
    for i in 0..18
        invariant
            forall|j: int| 0 <= j < i ==> #[trigger] out[j] == (if is_sat {
                sat_trit(s.trits[j], t.trits[j])
            } else {
                Trit::of(s.trits[j].val() * t.trits[j].val())
            }),
    {
        let (a, b) = (s.trits[i], t.trits[i]);
        out[i] = if is_sat {
            if a == Trit::Z {
                b
            } else if a != b && b != Trit::Z {
                Trit::Z
            } else {
                a
            }
        } else {
            a.mul(b)
        };
    }
    let w = Word { trits: out };
    let _ = put_s(mem, regs, &w);
    pop(regs);
    inc_rc(regs);
    proof {
        lemma_holds_word_val(*mem, r1.spec_ph(), bs(r1), w);
        assert forall|j: int| 0 <= j < 18 implies #[trigger] word_trit(*mem, r1.spec_ph(), bs(r1), j) == (if is_sat {
            sat_trit(s_trit(m1, r1, j), t_trit(m1, r1, j))
        } else {
            Trit::of(s_trit(m1, r1, j).val() * t_trit(m1, r1, j).val())
        }) by {
            assert(word_trit(*mem, r1.spec_ph(), bs(r1), j) == w.trits[j]);
            assert(s_trit(m1, r1, j) == s.trits[j]);
            assert(t_trit(m1, r1, j) == t.trits[j]);
        }
    }
    Ok(())
}

fn op_s_arith(mem: &mut Memory1, regs: &mut Registers, minus: bool) -> (res: Result<(), Stop>)
    ensures
        s_gets(*old(mem), *old(regs), *final(mem), *final(regs), res, if minus {
            wrap(s_val(*old(mem), *old(regs)) - t_val(*old(mem), *old(regs)), 387420489)
        } else {
            wrap(s_val(*old(mem), *old(regs)) + t_val(*old(mem), *old(regs)), 387420489)
        }),
{
    let t = get_t(mem, regs);
    let s = match get_s(mem, regs) {
        Some(s) => s,
        None => return Err(Stop::Ir(InterruptCause::StackExhausted)),
    };
    let r = if minus {
        s.sub(&t)
    } else {
        s.add(&t)
    };
    let ghost r1 = *regs;
    let _ = put_s(mem, regs, &r);
    pop(regs);
    inc_rc(regs);
    proof {
        lemma_holds_word_val(*mem, r1.spec_ph(), bs(r1), r);
    }
    Ok(())
}

fn op_tdn(mem: &mut Memory1, regs: &mut Registers) -> (res: Result<(), Stop>)
    ensures
        tdn_spec(*old(mem), *old(regs), *final(mem), *final(regs), res),
{
    let t = get_t(mem, regs);
    let n = t.neg();
    let ghost m1 = *mem;
    let ghost r1 = *regs;
    proof {
        lemma_holds_word_val(m1, r1.spec_ph(), ws(r1), t);
    }
    put_t(mem, regs, &n);
    inc_rc(regs);
    proof {
        lemma_holds_word_val(*mem, r1.spec_ph(), ws(r1), n);
    }
    Ok(())
}

proof fn lemma_dw_split(x: int, lo: Word, hi: Word)
    requires
        hi.value() * 387420489 + lo.value() == x,
    ensures
        lo.value() == dw_lo(x),
        hi.value() == dw_hi(x),
{
    lo.lemma_range();
    lemma_wrap_unique(x, lo.value(), 387420489, hi.value());
    assert(x - dw_lo(x) == hi.value() * 387420489);
    vstd::arithmetic::div_mod::lemma_fundamental_div_mod_converse(x - dw_lo(x), 387420489, hi.value(), 0);
}

/// which: 0 = LBT, 1 = L*T, 2 = LHT.
fn op_long(mem: &mut Memory1, regs: &mut Registers, which: u8) -> (res: Result<(), Stop>)
    requires
        which <= 2,
    ensures
        long_spec(*old(mem), *old(regs), *final(mem), *final(regs), res, which as int),
{
    let s = match get_s(mem, regs) {
        Some(s) => s,
        None => return Err(Stop::Ir(InterruptCause::StackExhausted)),
    };
    let t = get_t(mem, regs);
    let ghost r1 = *regs;
    let (lo, hi) = if which == 0 {
        Word::zero().mul_acc(&t, &regs.r)
    } else if which == 1 {
        regs.r = s;
        Word::zero().mul_acc(&t, &s)
    } else {
        regs.y.mul_acc(&t, &regs.r)
    };
    proof {
        let x = if which == 0 {
            long_mul(0, t.value(), r1.r.value())
        } else if which == 1 {
            long_mul(0, t.value(), s.value())
        } else {
            long_mul(r1.y.value(), t.value(), r1.r.value())
        };
        lemma_dw_split(x, lo, hi);
    }
    let hi2 = if which == 1 {
        hi
    } else {
        hi.add(&s)
    };
    let _ = put_s(mem, regs, &hi2);
    regs.y = lo;
    pop(regs);
    inc_rc(regs);
    proof {
        lemma_holds_word_val(*mem, r1.spec_ph(), bs(r1), hi2);
    }
    Ok(())
}


/// REFSYL on the current k.
fn ref_syllable(mem: &mut Memory1, regs: &mut Registers) -> (res: Result<(), Stop>)
    ensures
        refsyl_spec(*old(mem), *old(regs), *final(mem), *final(regs), res),
{
    proof {
        regs.lemma_ranges();
        lemma_pow3_small();
    }
    let len = regs.k1().to_i8() + 2;
    let ka = regs.ka();
    if regs.mode() != Mode::Interrupt && (ka as i16 - len as i16) < -40 {
        return Err(Stop::Ir(InterruptCause::OperandCrossPage));
    }
    let page = regs.h(regs.k2());
    let data = match mem.read_syllables(page, ka, len as u8) {
        Some(d) => d,
        None => return Err(Stop::Ir(InterruptCause::OperandCrossPage)),
    };
    let ghost m1 = *mem;
    let zw = Word::zero();
    put_t(mem, regs, &zw);
    let ghost m2 = *mem;
    let ph = regs.ph();
    let senior = 3 * regs.pa() - 1;
    let _ = mem.write(ph, senior, data[0]);
    let ghost m3 = *mem;
    if len >= 2 {
        let _ = mem.write(ph, senior + 1, data[1]);
    }
    let ghost m4 = *mem;
    if len == 3 {
        let _ = mem.write(ph, senior + 2, data[2]);
    }
    proof {
        let p = ph as int;
        let w = senior as int;
        assert(same_except(*mem, m1, p, w, w + 2)) by {
            assert forall|pp: int, a: int|
                valid_page(pp) && valid_addr(a) && !(pp == p && w <= a <= w + 2) implies #[trigger] mem.cell(pp, a) == m1.cell(pp, a) by {
                assert(mem.cell(pp, a) == m4.cell(pp, a));
                assert(m4.cell(pp, a) == m3.cell(pp, a));
                assert(m3.cell(pp, a) == m2.cell(pp, a));
            }
        }
        assert(mem.cell(p, w) == m3.cell(p, w));
        assert(m2.cell(p, w + 1) == zw.tryte_at(1));
        assert(m2.cell(p, w + 2) == zw.tryte_at(0));
    }
    inc_rc(regs);
    Ok(())
}

fn op_t_eq_w(mem: &mut Memory1, regs: &mut Registers) -> (res: Result<(), Stop>)
    ensures
        t_eq_w_spec(*old(mem), *old(regs), *final(mem), *final(regs), res),
{
    let t = get_t_senior(mem, regs);
    regs.set_k(&t);
    proof {
        assert(*regs == with_k(*old(regs), t));
    }
    ref_syllable(mem, regs)
}

fn op_w_eq_s(mem: &mut Memory1, regs: &mut Registers) -> (res: Result<(), Stop>)
    ensures
        w_eq_s_spec(*old(mem), *old(regs), *final(mem), *final(regs), res),
{
    proof {
        regs.lemma_ranges();
    }
    let t = get_t_senior(mem, regs);
    regs.set_k(&t);
    proof {
        assert(*regs == with_k(*old(regs), t));
        regs.lemma_ranges();
    }
    let len = regs.k1().to_i8() + 2;
    let ka = regs.ka();
    if regs.mode() != Mode::Interrupt && (ka as i16 - len as i16) < -40 {
        return Err(Stop::Ir(InterruptCause::OperandCrossPage));
    }
    let page = regs.h(regs.k2());
    if -4 <= page && page <= 4 {
        let s = match get_s(mem, regs) {
            Some(s) => s,
            None => return Err(Stop::Ir(InterruptCause::StackExhausted)),
        };
        let (lo, mid, hi) = s.to_trytes();
        let ghost m1 = *mem;
        let ghost r1 = *regs;
        let data = [hi, mid, lo];
        let r = mem.write_syllables(page, ka, len as u8, &data);
        proof {
            assert forall|p: int, a: int|
                valid_page(p) && valid_addr(a) implies #[trigger] mem.cell(p, a) == (if p == page && ka - len < a <= ka {
                    m1.cell(r1.spec_ph(), bs(r1) + ka - a)
                } else {
                    m1.cell(p, a)
                }) by {
                if p == page && ka - len < a <= ka {
                    assert(holds_word(m1, r1.spec_ph(), bs(r1), s));
                    assert(data[ka - a] == m1.cell(r1.spec_ph(), bs(r1) + ka - a));
                }
            }
        }
        if r.is_err() {
            return Err(Stop::Ir(InterruptCause::ForbiddenSyllable));
        }
    }
    pop(regs);
    inc_rc(regs);
    Ok(())
}

/// The BASIC group.
fn exec_basic(mem: &mut Memory1, regs: &mut Registers) -> (res: Result<(), Stop>)
    ensures
        basic_spec(*old(mem), *old(regs), *final(mem), *final(regs), res),
{
    proof {
        regs.lemma_ranges();
    }
    if regs.mode() != Mode::Interrupt && regs.pa() == -13 {
        return Err(Stop::Ir(InterruptCause::StackExhausted));
    }
    let ko = regs.op_code();
    if ko == -13 {
        op_lst(mem, regs)
    } else if ko == -12 {
        op_cot(mem, regs)
    } else if ko == -11 {
        op_xnn(mem, regs)
    } else if ko == -10 {
        op_e_add(mem, regs, -1)
    } else if ko == -9 {
        op_e_zero(mem, regs)
    } else if ko == -8 {
        op_e_add(mem, regs, 1)
    } else if ko == -7 {
        op_t_e(mem, regs, true)
    } else if ko == -6 {
        op_e_eq_t(mem, regs)
    } else if ko == -5 {
        op_t_e(mem, regs, false)
    } else if ko == -4 {
        op_cond(mem, regs, -1)
    } else if ko == -3 {
        op_cond(mem, regs, 0)
    } else if ko == -2 {
        op_cond(mem, regs, 1)
    } else if ko == -1 {
        op_t_eq_c(mem, regs)
    } else if ko == 0 {
        op_reg_from_t(mem, regs, true)
    } else if ko == 1 {
        op_c_eq_t(mem, regs)
    } else if ko == 2 {
        op_t_eq_w(mem, regs)
    } else if ko == 3 {
        op_yft(mem, regs)
    } else if ko == 4 {
        op_w_eq_s(mem, regs)
    } else if ko == 5 {
        op_s_tritwise(mem, regs, false)
    } else if ko == 6 {
        op_reg_from_t(mem, regs, false)
    } else if ko == 7 {
        op_s_tritwise(mem, regs, true)
    } else if ko == 8 {
        op_s_arith(mem, regs, true)
    } else if ko == 9 {
        op_tdn(mem, regs)
    } else if ko == 10 {
        op_s_arith(mem, regs, false)
    } else if ko == 11 {
        op_long(mem, regs, 0)
    } else if ko == 12 {
        op_long(mem, regs, 1)
    } else {
        op_long(mem, regs, 2)
    }
}


// ----------------------------------------------------------------------
// SPEC group: specifications
// ----------------------------------------------------------------------

/// v after INCRC, starting from the request bits `v`.
pub open spec fn incrc_v(v: Seq<Trit>, r1: Registers) -> Seq<Trit> {
    if r1.spec_mode() != Mode::Interrupt && r1.spec_ca() == 40 {
        v.update(8, Trit::P)
    } else {
        v
    }
}

/// ca := ca + 1 in c.
pub open spec fn incrc_c(r2: Registers, r1: Registers) -> bool {
    field_written(r2.c.trits@, r1.c.trits@, 4, 7, r1.spec_ca() + 1)
}

/// Trit j (0..6) of the syllable received from the group buffer g
/// (TRANSIN): tape position i+1 ↔ syllable trit 5−i; a punch is ±1 by the
/// sign track g[6].
pub open spec fn transin_trit(g: TritWord<7>, j: int) -> Trit {
    if g.trits[5 - j] == Trit::P {
        if g.trits[6] == Trit::P {
            Trit::P
        } else {
            Trit::N
        }
    } else {
        Trit::Z
    }
}

/// The group buffer after TRANSOUT of syllable t: position i punched for a
/// nonzero trit 5−i; the sign track is P unless t has a negative trit.
pub open spec fn transout(g2: TritWord<7>, t: Tryte) -> bool {
    &&& forall|i: int| 0 <= i < 6 ==> #[trigger] g2.trits[i] == (if t.trits[5 - i] == Trit::Z {
        Trit::Z
    } else {
        Trit::P
    })
    &&& g2.trits[6] == (if exists|j: int| 0 <= j < 6 && #[trigger] t.trits[j] == Trit::N {
        Trit::Z
    } else {
        Trit::P
    })
}

/// Value of the field `from..=to` of the window word.
pub open spec fn t_field(m: Memory1, r: Registers, from: int, to: int) -> int {
    field_val(t_word(m, r).trits@, from, to)
}

/// The SPEC group S1..S27 (ko −13..=13, S-number n = ko + 14, group
/// l = (n − 1) mod 3 as index 0..2).
pub open spec fn spec_group_spec(
    m1: Memory1,
    d1: Memory2,
    r1: Registers,
    m2: Memory1,
    d2: Memory2,
    r2: Registers,
    res: Result<(), Stop>,
) -> bool {
    let n = r1.spec_ko() + 14;
    let idx = (n - 1) % 3;
    let ph = r1.spec_ph();
    if r1.spec_mode() == Mode::User {
        unchanged_ir(m1, r1, m2, r2, res, InterruptCause::ForbiddenSyllable) && d2 == d1
    } else if r1.spec_mode() != Mode::Interrupt && r1.spec_pa() == -13 {
        unchanged_ir(m1, r1, m2, r2, res, InterruptCause::StackExhausted) && d2 == d1
    } else {
        &&& res is Ok
        &&& if n <= 3 {
            // COPYG (TRANSIN): T := 0; t := the syllable of g[l]; a[l] := 1.
            &&& forall|j: int| 0 <= j < 6 ==> #[trigger] m2.cell(ph, ws(r1)).trits[j] == transin_trit(r1.g[idx], j)
            &&& m2.cell(ph, ws(r1) + 1).is_zero()
            &&& m2.cell(ph, ws(r1) + 2).is_zero()
            &&& same_except(m2, m1, ph, ws(r1), ws(r1) + 2)
            &&& d2 == d1
            &&& incrc(r2, r1)
            &&& r2.a@ == r1.a@.update(idx, Trit::P)
            &&& r2 == (Registers { c: r2.c, v: r2.v, a: r2.a, ..r1 })
        } else if n <= 6 {
            // COPYF: RAM page hf := drum page f[l, q[l]]; pop.
            let hf = t_field(m1, r1, 3, 5);
            let q = r1.q[idx].field(0, 7);
            &&& (if -4 <= hf <= 4 {
                &&& m2.page_at(hf) == d1.drum(idx - 1, q)
                &&& forall|p: int| valid_page(p) && p != hf ==> #[trigger] m2.page_at(p) == m1.page_at(p)
            } else {
                m2 == m1
            })
            &&& d2 == d1
            &&& pop_incrc(r2, r1)
            &&& regs_cpv(r2, r1)
        } else if n <= 9 {
            // LOADQ: q[l] := z[4..12]; the request v[l+5] is raised; pop.
            &&& m2 == m1
            &&& d2 == d1
            &&& field_written(r2.q[idx].trits@, r1.q[idx].trits@, 0, 7, t_field(m1, r1, 4, 11))
            &&& forall|i: int| 0 <= i < 3 && i != idx ==> #[trigger] r2.q[i] == r1.q[i]
            &&& popped(r2, r1)
            &&& incrc_c(r2, r1)
            &&& r2.v.trits@ == incrc_v(r1.v.trits@.update(idx + 4, Trit::P), r1)
            &&& r2 == (Registers { c: r2.c, p: r2.p, v: r2.v, q: r2.q, ..r1 })
        } else if n == 10 {
            // COPYP: T := (ph, pa) packed at z[4..6], z[8..11].
            let w = word_of_cells(m2, ph, ws(r1));
            &&& field_val(w.trits@, 4, 5) == r1.spec_ph()
            &&& field_val(w.trits@, 8, 10) == r1.spec_pa()
            &&& forall|j: int| 0 <= j < 18 && j != 4 && j != 5 && !(8 <= j <= 10) ==> #[trigger] w.trits[j] == Trit::Z
            &&& same_except(m2, m1, ph, ws(r1), ws(r1) + 2)
            &&& d2 == d1
            &&& incrc(r2, r1)
            &&& r2 == (Registers { c: r2.c, v: r2.v, ..r1 })
        } else if n == 11 {
            // EXCHP: swap the current and saved stack pointers.
            &&& m2 == m1
            &&& d2 == d1
            &&& r2.p.trits@ == r1.p.trits@.subrange(5, 10) + r1.p.trits@.subrange(0, 5)
            &&& incrc(r2, r1)
            &&& regs_cpv(r2, r1)
        } else if n == 12 {
            // LOADP: (ph, pa) := the fields of T.
            &&& m2 == m1
            &&& d2 == d1
            &&& r2.spec_ph() == t_field(m1, r1, 4, 5)
            &&& r2.spec_pa() == t_field(m1, r1, 8, 10)
            &&& forall|i: int| 5 <= i < 10 ==> #[trigger] r2.p.trits[i] == r1.p.trits[i]
            &&& incrc(r2, r1)
            &&& regs_cpv(r2, r1)
        } else if n == 13 {
            // COPYMC: T := the saved context c[8..20]; the save areas rotate.
            &&& forall|j: int| 0 <= j < 12 ==> #[trigger] word_trit(m2, ph, ws(r1), j) == r1.c.trits[8 + j]
            &&& forall|j: int| 12 <= j < 18 ==> #[trigger] word_trit(m2, ph, ws(r1), j) == Trit::Z
            &&& same_except(m2, m1, ph, ws(r1), ws(r1) + 2)
            &&& d2 == d1
            &&& field_val(r2.c.trits@, 4, 7) == wrap(r1.spec_ca() + 1, 81)
            &&& r2.v.trits@ == incrc_v(r1.v.trits@, r1)
            &&& forall|i: int| 0 <= i < 4 ==> #[trigger] r2.c.trits[i] == r1.c.trits[i]
            &&& forall|i: int| 8 <= i < 20 ==> #[trigger] r2.c.trits[i] == r1.c.trits[i + 12]
            &&& forall|i: int| 20 <= i < 32 ==> #[trigger] r2.c.trits[i] == r1.c.trits[i - 12]
            &&& r2 == (Registers { c: r2.c, v: r2.v, ..r1 })
        } else if n == 14 {
            // RETNMC: restore (c1, ch, ca) from the saved context; rotate back.
            &&& m2 == m1
            &&& d2 == d1
            &&& forall|i: int| 0 <= i < 4 ==> #[trigger] r2.c.trits[i] == r1.c.trits[i + 10]
            &&& forall|i: int| 4 <= i < 8 ==> #[trigger] r2.c.trits[i] == r1.c.trits[i + 12]
            &&& forall|i: int| 8 <= i < 20 ==> #[trigger] r2.c.trits[i] == r1.c.trits[i + 12]
            &&& forall|i: int| 20 <= i < 32 ==> #[trigger] r2.c.trits[i] == r1.c.trits[i - 12]
            &&& r2 == (Registers { c: r2.c, ..r1 })
        } else if n == 15 {
            // LOADMC: c[8..20] := T's trits 0..12; pop.
            &&& m2 == m1
            &&& d2 == d1
            &&& popped(r2, r1)
            &&& field_val(r2.c.trits@, 4, 7) == wrap(r1.spec_ca() + 1, 81)
            &&& r2.v.trits@ == incrc_v(r1.v.trits@, r1)
            &&& forall|i: int| 0 <= i < 4 ==> #[trigger] r2.c.trits[i] == r1.c.trits[i]
            &&& forall|i: int| 8 <= i < 20 ==> #[trigger] r2.c.trits[i] == t_trit(m1, r1, i - 8)
            &&& forall|i: int| 20 <= i < 32 ==> #[trigger] r2.c.trits[i] == r1.c.trits[i - 12]
            &&& regs_cpv(r2, r1)
        } else if n <= 18 {
            // LOADH: h[l] := z[3..6]; pop.
            &&& m2 == m1
            &&& d2 == d1
            &&& field_written(r2.h[idx].trits@, r1.h[idx].trits@, 0, 2, t_field(m1, r1, 3, 5))
            &&& forall|i: int| 0 <= i < 3 && i != idx ==> #[trigger] r2.h[i] == r1.h[i]
            &&& pop_incrc(r2, r1)
            &&& r2 == (Registers { c: r2.c, p: r2.p, v: r2.v, h: r2.h, ..r1 })
        } else if n <= 21 {
            // LOADU: u[l] := the four junior trits of t; a[l] := 1; pop.
            &&& m2 == m1
            &&& d2 == d1
            &&& forall|i: int| 0 <= i < 4 ==> #[trigger] r2.u[idx].trits[i] == t_sen(m1, r1).trits[i]
            &&& forall|i: int| 0 <= i < 3 && i != idx ==> #[trigger] r2.u[i] == r1.u[i]
            &&& r2.a@ == r1.a@.update(idx, Trit::P)
            &&& pop_incrc(r2, r1)
            &&& r2 == (Registers { c: r2.c, p: r2.p, v: r2.v, u: r2.u, a: r2.a, ..r1 })
        } else if n <= 24 {
            // LOADF: drum page f[l, q[l]] := RAM page hf; pop.
            let hf = t_field(m1, r1, 3, 5);
            let q = r1.q[idx].field(0, 7);
            &&& m2 == m1
            &&& d2.wf()
            &&& d2.drum(idx - 1, q) == m1.page_at(hf)
            &&& forall|k: int, x: int| valid_drum(k, x) && !(k == idx - 1 && x == q) ==> #[trigger] d2.drum(k, x) == d1.drum(k, x)
            &&& pop_incrc(r2, r1)
            &&& regs_cpv(r2, r1)
        } else {
            // LOADG (TRANSOUT): g[l] := the tape pattern of t; a[l] := 1; pop.
            &&& m2 == m1
            &&& d2 == d1
            &&& transout(r2.g[idx], t_sen(m1, r1))
            &&& forall|i: int| 0 <= i < 3 && i != idx ==> #[trigger] r2.g[i] == r1.g[i]
            &&& r2.a@ == r1.a@.update(idx, Trit::P)
            &&& pop_incrc(r2, r1)
            &&& r2 == (Registers { c: r2.c, p: r2.p, v: r2.v, g: r2.g, a: r2.a, ..r1 })
        }
    }
}


// ----------------------------------------------------------------------
// SPEC group: operations
// ----------------------------------------------------------------------

/// Value of the MSB-first field `from..=to` of a word's trits.
fn word_field(w: &Word, from: usize, to: usize) -> (r: i32)
    requires
        from <= to < 18,
        to - from < 9,
    ensures
        r == field_val(w.trits@, from as int, to as int),
{
    let tw = TritWord::<18> { trits: w.trits };
    tw.field_i32(from, to)
}

/// The precondition shared by the SPEC operations: the group is allowed.
pub open spec fn spec_entry_ok(r: Registers) -> bool {
    &&& r.spec_mode() != Mode::User
    &&& !(r.spec_mode() != Mode::Interrupt && r.spec_pa() == -13)
}

fn transin(x: Trit, sign: Trit) -> (r: Trit)
    ensures
        r == (if x == Trit::P {
            if sign == Trit::P {
                Trit::P
            } else {
                Trit::N
            }
        } else {
            Trit::Z
        }),
{
    if x == Trit::P {
        if sign == Trit::P {
            Trit::P
        } else {
            Trit::N
        }
    } else {
        Trit::Z
    }
}

fn op_copyg(mem: &mut Memory1, mem2: &mut Memory2, regs: &mut Registers) -> (res: Result<(), Stop>)
    requires
        spec_entry_ok(*old(regs)),
        1 <= old(regs).spec_ko() + 14 <= 3,
    ensures
        spec_group_spec(*old(mem), *old(mem2), *old(regs), *final(mem), *final(mem2), *final(regs), res),
{
    let idx = (regs.op_code() + 13) as usize;
    let g = regs.g[idx];
    let sign = g.trits[6];
    let t = Tryte {
        trits: [
            transin(g.trits[5], sign),
            transin(g.trits[4], sign),
            transin(g.trits[3], sign),
            transin(g.trits[2], sign),
            transin(g.trits[1], sign),
            transin(g.trits[0], sign),
        ],
    };
    let ghost m1 = *mem;
    let zw = Word::zero();
    put_t(mem, regs, &zw);
    let ghost m2 = *mem;
    put_t_senior(mem, regs, t);
    proof {
        lemma_same_except_trans(*mem, m2, m1, regs.spec_ph(), ws(*regs), ws(*regs) + 2, ws(*regs), ws(*regs));
        assert(m2.cell(regs.spec_ph(), ws(*regs) + 1) == zw.tryte_at(1));
        assert(m2.cell(regs.spec_ph(), ws(*regs) + 2) == zw.tryte_at(0));
        lemma_zero_trytes(zw);
        regs.lemma_ranges();
        assert(mem.cell(regs.spec_ph(), ws(*regs) + 1) == m2.cell(regs.spec_ph(), ws(*regs) + 1));
        assert(mem.cell(regs.spec_ph(), ws(*regs) + 2) == m2.cell(regs.spec_ph(), ws(*regs) + 2));
        assert(mem.cell(regs.spec_ph(), ws(*regs) + 1).is_zero());
        assert(mem.cell(regs.spec_ph(), ws(*regs) + 2).is_zero());
        assert(mem.cell(regs.spec_ph(), ws(*regs)) == t);
    }
    regs.a[idx] = Trit::P;
    inc_rc(regs);
    Ok(())
}

fn op_copyf(mem: &mut Memory1, mem2: &mut Memory2, regs: &mut Registers) -> (res: Result<(), Stop>)
    requires
        spec_entry_ok(*old(regs)),
        4 <= old(regs).spec_ko() + 14 <= 6,
        old(mem2).wf(),
    ensures
        spec_group_spec(*old(mem), *old(mem2), *old(regs), *final(mem), *final(mem2), *final(regs), res),
{
    let idx = (regs.op_code() + 13 - 3) as usize;
    let z = get_t(mem, regs);
    proof {
        lemma_field_range(z.trits@, 3, 5);
        lemma_pow3_small();
    }
    let hf = word_field(&z, 3, 5) as i8;
    if -4 <= hf && hf <= 4 {
        proof {
            lemma_field_range(regs.q[idx as int].trits@, 0, 7);
        }
        let q = regs.q[idx].field_i32(0, 7);
        match mem2.read_page(idx as i8 - 1, q) {
            Some(src) => {
                let page = *src;
                let _ = mem.copy_page_from(hf, &page);
            },
            None => {},
        }
    }
    pop(regs);
    inc_rc(regs);
    Ok(())
}

fn op_loadq(mem: &mut Memory1, mem2: &mut Memory2, regs: &mut Registers) -> (res: Result<(), Stop>)
    requires
        spec_entry_ok(*old(regs)),
        7 <= old(regs).spec_ko() + 14 <= 9,
    ensures
        spec_group_spec(*old(mem), *old(mem2), *old(regs), *final(mem), *final(mem2), *final(regs), res),
{
    let idx = (regs.op_code() + 13 - 6) as usize;
    let z = get_t(mem, regs);
    let qv = word_field(&z, 4, 11);
    let mut qw = regs.q[idx];
    qw.set_field(0, 7, qv);
    regs.q[idx] = qw;
    regs.v.set_trit(idx + 4, Trit::P);
    pop(regs);
    inc_rc(regs);
    Ok(())
}

fn op_copyp(mem: &mut Memory1, mem2: &mut Memory2, regs: &mut Registers) -> (res: Result<(), Stop>)
    requires
        spec_entry_ok(*old(regs)),
        old(regs).spec_ko() + 14 == 10,
    ensures
        spec_group_spec(*old(mem), *old(mem2), *old(regs), *final(mem), *final(mem2), *final(regs), res),
{
    proof {
        regs.lemma_ranges();
        lemma_pow3_small();
    }
    let mut tw = TritWord::<18>::zero();
    let ghost tw0 = tw;
    tw.set_field(4, 5, regs.ph() as i32);
    let ghost tw1 = tw;
    tw.set_field(8, 10, regs.pa() as i32);
    proof {
        lemma_wrap_small(regs.spec_ph(), 9);
        lemma_wrap_small(regs.spec_pa(), 27);
        crate::registers::lemma_field_frame(tw.trits@, tw1.trits@, 4, 5);
        assert forall|j: int| 0 <= j < 18 && j != 4 && j != 5 && !(8 <= j <= 10) implies #[trigger] tw.trits[j] == Trit::Z by {
            assert(tw.trits[j] == tw1.trits[j]);
            assert(tw1.trits[j] == tw0.trits[j]);
        }
    }
    let w = Word { trits: tw.trits };
    let ghost r1 = *regs;
    put_t(mem, regs, &w);
    proof {
        lemma_holds_word_cells(*mem, r1.spec_ph(), ws(r1), w);
    }
    inc_rc(regs);
    Ok(())
}

fn op_exchp(mem: &mut Memory1, mem2: &mut Memory2, regs: &mut Registers) -> (res: Result<(), Stop>)
    requires
        spec_entry_ok(*old(regs)),
        old(regs).spec_ko() + 14 == 11,
    ensures
        spec_group_spec(*old(mem), *old(mem2), *old(regs), *final(mem), *final(mem2), *final(regs), res),
{
    let o = regs.p.trits;
    regs.p.trits = [o[5], o[6], o[7], o[8], o[9], o[0], o[1], o[2], o[3], o[4]];
    proof {
        assert(regs.p.trits@ =~= old(regs).p.trits@.subrange(5, 10) + old(regs).p.trits@.subrange(0, 5));
    }
    inc_rc(regs);
    Ok(())
}

fn op_loadp(mem: &mut Memory1, mem2: &mut Memory2, regs: &mut Registers) -> (res: Result<(), Stop>)
    requires
        spec_entry_ok(*old(regs)),
        old(regs).spec_ko() + 14 == 12,
    ensures
        spec_group_spec(*old(mem), *old(mem2), *old(regs), *final(mem), *final(mem2), *final(regs), res),
{
    let t = get_t(mem, regs);
    proof {
        lemma_field_range(t.trits@, 4, 5);
        lemma_field_range(t.trits@, 8, 10);
        lemma_pow3_small();
    }
    let ph = word_field(&t, 4, 5) as i8;
    let pa = word_field(&t, 8, 10) as i8;
    regs.set_ph(ph);
    let ghost p1 = regs.p;
    regs.set_pa(pa);
    proof {
        lemma_wrap_small(ph as int, 9);
        lemma_wrap_small(pa as int, 27);
        crate::registers::lemma_field_frame(regs.p.trits@, p1.trits@, 0, 1);
    }
    inc_rc(regs);
    Ok(())
}

/// The two 12-trit save areas of c exchanged.
fn swap_save(c: &[Trit; 32]) -> (r: [Trit; 32])
    ensures
        forall|i: int| 0 <= i < 8 ==> #[trigger] r[i] == c[i],
        forall|i: int| 8 <= i < 20 ==> #[trigger] r[i] == c[i + 12],
        forall|i: int| 20 <= i < 32 ==> #[trigger] r[i] == c[i - 12],
{
    let mut r = *c;
    for i in 8..20
        invariant
            forall|j: int| 0 <= j < 8 ==> #[trigger] r[j] == c[j],
            forall|j: int| 8 <= j < i ==> #[trigger] r[j] == c[j + 12],
            forall|j: int| 20 <= j < i + 12 ==> #[trigger] r[j] == c[j - 12],
    {
        r[i] = c[i + 12];
        r[i + 12] = c[i];
    }
    r
}

fn op_copymc(mem: &mut Memory1, mem2: &mut Memory2, regs: &mut Registers) -> (res: Result<(), Stop>)
    requires
        spec_entry_ok(*old(regs)),
        old(regs).spec_ko() + 14 == 13,
    ensures
        spec_group_spec(*old(mem), *old(mem2), *old(regs), *final(mem), *final(mem2), *final(regs), res),
{
    let c = regs.c.trits;
    let mut z = [Trit::Z; 18];
    for i in 0..12
        invariant
            forall|j: int| 0 <= j < i ==> #[trigger] z[j] == c[8 + j],
            forall|j: int| 12 <= j < 18 ==> #[trigger] z[j] == Trit::Z,
    {
        z[i] = c[8 + i];
    }
    regs.c.trits = swap_save(&c);
    let w = Word { trits: z };
    let ghost r1 = *regs;
    put_t(mem, regs, &w);
    proof {
        lemma_holds_word_val(*mem, r1.spec_ph(), ws(r1), w);
        crate::registers::lemma_field_frame(regs.c.trits@, old(regs).c.trits@, 4, 7);
        lemma_pow3_small();
    }
    inc_rc(regs);
    Ok(())
}

fn op_retnmc(mem: &mut Memory1, mem2: &mut Memory2, regs: &mut Registers) -> (res: Result<(), Stop>)
    requires
        spec_entry_ok(*old(regs)),
        old(regs).spec_ko() + 14 == 14,
    ensures
        spec_group_spec(*old(mem), *old(mem2), *old(regs), *final(mem), *final(mem2), *final(regs), res),
{
    let c = regs.c.trits;
    let mut r = swap_save(&c);
    r[0] = c[10];
    r[1] = c[11];
    r[2] = c[12];
    r[3] = c[13];
    r[4] = c[16];
    r[5] = c[17];
    r[6] = c[18];
    r[7] = c[19];
    regs.c.trits = r;
    Ok(())
}

fn op_loadmc(mem: &mut Memory1, mem2: &mut Memory2, regs: &mut Registers) -> (res: Result<(), Stop>)
    requires
        spec_entry_ok(*old(regs)),
        old(regs).spec_ko() + 14 == 15,
    ensures
        spec_group_spec(*old(mem), *old(mem2), *old(regs), *final(mem), *final(mem2), *final(regs), res),
{
    let t = get_t(mem, regs);
    proof {
        lemma_holds_word_val(*mem, regs.spec_ph(), ws(*regs), t);
    }
    let c = regs.c.trits;
    let mut r = c;
    for i in 8..20
        invariant
            forall|j: int| 0 <= j < 8 ==> #[trigger] r[j] == c[j],
            forall|j: int| 8 <= j < i ==> #[trigger] r[j] == t.trits[j - 8],
            forall|j: int| 20 <= j < i + 12 ==> #[trigger] r[j] == c[j - 12],
    {
        r[i + 12] = c[i];
        r[i] = t.trits[i - 8];
    }
    regs.c.trits = r;
    proof {
        crate::registers::lemma_field_frame(regs.c.trits@, old(regs).c.trits@, 4, 7);
        lemma_pow3_small();
    }
    pop(regs);
    inc_rc(regs);
    Ok(())
}

fn op_loadh(mem: &mut Memory1, mem2: &mut Memory2, regs: &mut Registers) -> (res: Result<(), Stop>)
    requires
        spec_entry_ok(*old(regs)),
        16 <= old(regs).spec_ko() + 14 <= 18,
    ensures
        spec_group_spec(*old(mem), *old(mem2), *old(regs), *final(mem), *final(mem2), *final(regs), res),
{
    let idx = (regs.op_code() + 13 - 15) as usize;
    let z = get_t(mem, regs);
    let hv = word_field(&z, 3, 5);
    let mut hw = regs.h[idx];
    hw.set_field(0, 2, hv);
    regs.h[idx] = hw;
    pop(regs);
    inc_rc(regs);
    Ok(())
}

fn op_loadu(mem: &mut Memory1, mem2: &mut Memory2, regs: &mut Registers) -> (res: Result<(), Stop>)
    requires
        spec_entry_ok(*old(regs)),
        19 <= old(regs).spec_ko() + 14 <= 21,
    ensures
        spec_group_spec(*old(mem), *old(mem2), *old(regs), *final(mem), *final(mem2), *final(regs), res),
{
    let idx = (regs.op_code() + 13 - 18) as usize;
    let t = get_t_senior(mem, regs);
    let mut u = regs.u[idx];
    u.trits = [t.trits[0], t.trits[1], t.trits[2], t.trits[3]];
    regs.u[idx] = u;
    regs.a[idx] = Trit::P;
    pop(regs);
    inc_rc(regs);
    Ok(())
}

fn op_loadf(mem: &mut Memory1, mem2: &mut Memory2, regs: &mut Registers) -> (res: Result<(), Stop>)
    requires
        spec_entry_ok(*old(regs)),
        22 <= old(regs).spec_ko() + 14 <= 24,
        old(mem2).wf(),
    ensures
        spec_group_spec(*old(mem), *old(mem2), *old(regs), *final(mem), *final(mem2), *final(regs), res),
{
    let idx = (regs.op_code() + 13 - 21) as usize;
    let z = get_t(mem, regs);
    proof {
        lemma_field_range(z.trits@, 3, 5);
        lemma_field_range(regs.q[idx as int].trits@, 0, 7);
        lemma_pow3_small();
    }
    let hf = word_field(&z, 3, 5) as i8;
    let q = regs.q[idx].field_i32(0, 7);
    match mem.page(hf) {
        Some(page) => {
            let page = *page;
            let _ = mem2.write_page(idx as i8 - 1, q, page);
        },
        None => {},
    }
    pop(regs);
    inc_rc(regs);
    Ok(())
}

fn op_loadg(mem: &mut Memory1, mem2: &mut Memory2, regs: &mut Registers) -> (res: Result<(), Stop>)
    requires
        spec_entry_ok(*old(regs)),
        25 <= old(regs).spec_ko() + 14 <= 27,
    ensures
        spec_group_spec(*old(mem), *old(mem2), *old(regs), *final(mem), *final(mem2), *final(regs), res),
{
    let idx = (regs.op_code() + 13 - 24) as usize;
    let t = get_t_senior(mem, regs);
    let mut g = regs.g[idx];
    let mut has_neg = false;
    for i in 0..6
        invariant
            forall|j: int| 0 <= j < i ==> #[trigger] g.trits[j] == (if t.trits[5 - j] == Trit::Z {
                Trit::Z
            } else {
                Trit::P
            }),
            has_neg <==> exists|j: int| 6 - i <= j < 6 && #[trigger] t.trits[j] == Trit::N,
    {
        if t.trits[5 - i] == Trit::Z {
            g.trits[i] = Trit::Z;
        } else {
            g.trits[i] = Trit::P;
        }
        if t.trits[5 - i] == Trit::N {
            has_neg = true;
        }
    }
    g.trits[6] = if has_neg {
        Trit::Z
    } else {
        Trit::P
    };
    regs.g[idx] = g;
    regs.a[idx] = Trit::P;
    pop(regs);
    inc_rc(regs);
    Ok(())
}

/// The SPEC group.
fn exec_spec(mem: &mut Memory1, mem2: &mut Memory2, regs: &mut Registers) -> (res: Result<(), Stop>)
    requires
        old(mem2).wf(),
    ensures
        spec_group_spec(*old(mem), *old(mem2), *old(regs), *final(mem), *final(mem2), *final(regs), res),
        final(mem2).wf(),
{
    proof {
        regs.lemma_ranges();
    }
    if regs.mode() == Mode::User {
        return Err(Stop::Ir(InterruptCause::ForbiddenSyllable));
    }
    if regs.mode() != Mode::Interrupt && regs.pa() == -13 {
        return Err(Stop::Ir(InterruptCause::StackExhausted));
    }
    let n = regs.op_code() + 14;
    if n <= 3 {
        op_copyg(mem, mem2, regs)
    } else if n <= 6 {
        op_copyf(mem, mem2, regs)
    } else if n <= 9 {
        op_loadq(mem, mem2, regs)
    } else if n == 10 {
        op_copyp(mem, mem2, regs)
    } else if n == 11 {
        op_exchp(mem, mem2, regs)
    } else if n == 12 {
        op_loadp(mem, mem2, regs)
    } else if n == 13 {
        op_copymc(mem, mem2, regs)
    } else if n == 14 {
        op_retnmc(mem, mem2, regs)
    } else if n == 15 {
        op_loadmc(mem, mem2, regs)
    } else if n <= 18 {
        op_loadh(mem, mem2, regs)
    } else if n <= 21 {
        op_loadu(mem, mem2, regs)
    } else if n <= 24 {
        op_loadf(mem, mem2, regs)
    } else {
        op_loadg(mem, mem2, regs)
    }
}


// ----------------------------------------------------------------------
// Interrupt entry and the MACRO dispatcher
// ----------------------------------------------------------------------

/// The c save areas after the rotation shared by MACRO and IR:
/// c[20..32] := c[8..20]; c[8..20] := 0; c[16..20] := ca; c[10..14] := (c1, ch).
pub open spec fn rotated(c2: Seq<Trit>, c1: Seq<Trit>) -> bool {
    forall|i: int|
        8 <= i < 32 ==> #[trigger] c2[i] == (if i == 8 || i == 9 || i == 14 || i == 15 {
            Trit::Z
        } else if 10 <= i < 14 {
            c1[i - 10]
        } else {
            c1[i - 12]
        })
}

/// The window at the registers `r` holds (t, 0, 0).
pub open spec fn window_is(m: Memory1, r: Registers, t: Tryte) -> bool {
    &&& m.cell(r.spec_ph(), ws(r)) == t
    &&& m.cell(r.spec_ph(), ws(r) + 1).is_zero()
    &&& m.cell(r.spec_ph(), ws(r) + 2).is_zero()
}

/// IR: the program state is saved, mode := interrupt, (ch, ca) := (13, −13),
/// the current and saved stack pointers are exchanged, w := cause,
/// pa := pa + 1, and the window receives (m[13, w], 0, 0).
pub open spec fn ir_spec(m1: Memory1, r1: Registers, m2: Memory1, r2: Registers, cause: InterruptCause) -> bool {
    &&& r2.c.trits[0] == Trit::P
    &&& r2.spec_ch() == 13
    &&& r2.spec_ca() == -13
    &&& rotated(r2.c.trits@, r1.c.trits@)
    &&& forall|i: int| 5 <= i < 10 ==> #[trigger] r2.p.trits[i] == r1.p.trits[i - 5]
    &&& r2.p.trits[0] == r1.p.trits[5]
    &&& r2.p.trits[1] == r1.p.trits[6]
    &&& r2.spec_pa() == wrap(field_val(r1.p.trits@, 7, 9) + 1, 27)
    &&& r2.spec_w() == cause.spec_value()
    &&& r2 == (Registers { c: r2.c, p: r2.p, w: r2.w, ..r1 })
    &&& window_is(m2, r2, m1.cell(13, cause.spec_value()))
    &&& same_except(m2, m1, r2.spec_ph(), ws(r2), ws(r2) + 2)
}

/// MACRO: in interrupt mode FINISH; in macro mode forbidden; in user mode
/// push, save the program state, mode := macro, (ch, ca) := (−13, −13) and
/// the window receives (m[−13, ka], 0, 0).
pub open spec fn macro_spec(m1: Memory1, r1: Registers, m2: Memory1, r2: Registers, res: Result<(), Stop>) -> bool {
    if r1.spec_mode() == Mode::Interrupt {
        &&& res matches Err(Stop::Trap(t)) && t == Trap::Finish
        &&& m2 == m1
        &&& r2 == (Registers { start: Trit::Z, ..r1 })
    } else if r1.spec_mode() == Mode::Macro {
        unchanged_ir(m1, r1, m2, r2, res, InterruptCause::ForbiddenSyllable)
    } else if r1.spec_pa() == 13 {
        unchanged_ir(m1, r1, m2, r2, res, InterruptCause::StackOverflow)
    } else {
        &&& res is Ok
        &&& pushed(r2, r1)
        &&& r2.c.trits[0] == Trit::Z
        &&& r2.spec_ch() == -13
        &&& r2.spec_ca() == -13
        &&& rotated(r2.c.trits@, r1.c.trits@)
        &&& r2 == (Registers { c: r2.c, p: r2.p, ..r1 })
        &&& window_is(m2, r2, m1.cell(-13, r1.spec_ka()))
        &&& same_except(m2, m1, r2.spec_ph(), ws(r2), ws(r2) + 2)
    }
}

fn rotate_c_save(regs: &mut Registers)
    ensures
        rotated(final(regs).c.trits@, old(regs).c.trits@),
        forall|i: int| 0 <= i < 8 ==> #[trigger] final(regs).c.trits[i] == old(regs).c.trits[i],
        *final(regs) == (Registers { c: final(regs).c, ..*old(regs) }),
{
    let c = regs.c.trits;
    let mut r = c;
    for i in 8..32
        invariant
            forall|j: int| 0 <= j < 8 ==> #[trigger] r[j] == c[j],
            forall|j: int| 8 <= j < i ==> #[trigger] r[j] == (if j == 8 || j == 9 || j == 14 || j == 15 {
                Trit::Z
            } else if 10 <= j < 14 {
                c[j - 10]
            } else {
                c[j - 12]
            }),
    {
        if i == 8 || i == 9 || i == 14 || i == 15 {
            r[i] = Trit::Z;
        } else if 10 <= i && i < 14 {
            r[i] = c[i - 10];
        } else {
            r[i] = c[i - 12];
        }
    }
    regs.c.trits = r;
}

/// Writes (t, 0, 0) into the window of the current registers.
fn put_window(mem: &mut Memory1, regs: &Registers, t: Tryte)
    ensures
        window_is(*final(mem), *regs, t),
        same_except(*final(mem), *old(mem), regs.spec_ph(), ws(*regs), ws(*regs) + 2),
{
    let ghost m1 = *mem;
    let zw = Word::zero();
    put_t(mem, regs, &zw);
    let ghost m2 = *mem;
    put_t_senior(mem, regs, t);
    proof {
        regs.lemma_ranges();
        lemma_same_except_trans(*mem, m2, m1, regs.spec_ph(), ws(*regs), ws(*regs) + 2, ws(*regs), ws(*regs));
        lemma_zero_trytes(zw);
        assert(mem.cell(regs.spec_ph(), ws(*regs) + 1) == m2.cell(regs.spec_ph(), ws(*regs) + 1));
        assert(mem.cell(regs.spec_ph(), ws(*regs) + 2) == m2.cell(regs.spec_ph(), ws(*regs) + 2));
    }
}

/// IR on (memory, registers).
fn enter_ir(mem: &mut Memory1, regs: &mut Registers, cause: InterruptCause)
    ensures
        ir_spec(*old(mem), *old(regs), *final(mem), *final(regs), cause),
{
    proof {
        lemma_pow3_small();
    }
    rotate_c_save(regs);
    let ghost c1 = regs.c;
    regs.set_mode(Mode::Interrupt);
    regs.set_ch(13);
    let ghost c2 = regs.c;
    regs.set_ca(-13);
    proof {
        crate::registers::lemma_field_frame(regs.c.trits@, c2.trits@, 1, 3);
        lemma_wrap_small(13, 27);
        lemma_wrap_small(-13, 81);
        assert forall|i: int| 8 <= i < 32 implies #[trigger] regs.c.trits[i] == c1.trits[i] by {}
    }
    let o = regs.p.trits;
    regs.p.trits = [o[5], o[6], o[7], o[8], o[9], o[0], o[1], o[2], o[3], o[4]];
    proof {
        assert(field_val(regs.p.trits@, 2, 4) == field_val(o@, 7, 9)) by {
            reveal_with_fuel(field_val, 4);
        }
    }
    regs.set_w(cause);
    proof {
        regs.lemma_ranges();
    }
    let pa = regs.pa();
    regs.set_pa(pa + 1);
    let w = regs.w_value();
    let s = mem.read(13, w).unwrap();
    put_window(mem, regs, s);
}

/// MACRO dispatch on (memory, registers).
fn exec_macro(mem: &mut Memory1, regs: &mut Registers) -> (res: Result<(), Stop>)
    ensures
        macro_spec(*old(mem), *old(regs), *final(mem), *final(regs), res),
{
    proof {
        regs.lemma_ranges();
        lemma_pow3_small();
    }
    match regs.mode() {
        Mode::Interrupt => {
            regs.start = Trit::Z;
            Err(Stop::Trap(Trap::Finish))
        },
        Mode::Macro => Err(Stop::Ir(InterruptCause::ForbiddenSyllable)),
        Mode::User => {
            if regs.pa() == 13 {
                return Err(Stop::Ir(InterruptCause::StackOverflow));
            }
            let ka = regs.ka();
            let pa = regs.pa();
            regs.set_pa(pa + 1);
            rotate_c_save(regs);
            let ghost c1 = regs.c;
            regs.set_mode(Mode::Macro);
            regs.set_ch(-13);
            let ghost c2 = regs.c;
            regs.set_ca(-13);
            proof {
                crate::registers::lemma_field_frame(regs.c.trits@, c2.trits@, 1, 3);
                lemma_wrap_small(-13, 27);
                lemma_wrap_small(-13, 81);
                assert forall|i: int| 8 <= i < 32 implies #[trigger] regs.c.trits[i] == c1.trits[i] by {}
            }
            let s = mem.read(-13, ka).unwrap();
            put_window(mem, regs, s);
            Ok(())
        },
    }
}


// ----------------------------------------------------------------------
// The cycle
// ----------------------------------------------------------------------

/// Index of the first pending request among v[j..9] (9 if none).
pub open spec fn first_request(v: Seq<Trit>, j: int) -> int
    decreases 9 - j,
{
    if j >= 9 {
        9
    } else if v[j] == Trit::P {
        j
    } else {
        first_request(v, j + 1)
    }
}

/// Execution of the syllable in k: an operational syllable dispatches by
/// its group; an address syllable pushes (pa := pa + 1) and runs REFSYL,
/// or in user/macro mode with a full stack page requests StackOverflow.
pub open spec fn exec_spec_of(
    m1: Memory1,
    d1: Memory2,
    r1: Registers,
    m2: Memory1,
    d2: Memory2,
    r2: Registers,
    res: Result<(), Stop>,
) -> bool {
    if r1.spec_is_op() {
        match OpGroup::of_trit(r1.k.trits[2]) {
            OpGroup::Basic => basic_spec(m1, r1, m2, r2, res) && d2 == d1,
            OpGroup::Spec => spec_group_spec(m1, d1, r1, m2, d2, r2, res),
            OpGroup::Macro => macro_spec(m1, r1, m2, r2, res) && d2 == d1,
        }
    } else if r1.spec_mode() != Mode::Interrupt && r1.spec_pa() == 13 {
        unchanged_ir(m1, r1, m2, r2, res, InterruptCause::StackOverflow) && d2 == d1
    } else {
        &&& d2 == d1
        &&& exists|rp: Registers|
            #![trigger refsyl_spec(m1, rp, m2, r2, res)]
            pushed(rp, r1) && rp == (Registers { p: rp.p, ..r1 }) && refsyl_spec(m1, rp, m2, r2, res)
    }
}

/// How the result of an execution continues: IR requests enter the
/// interrupt routine; traps surface.
pub open spec fn after_spec(
    m3: Memory1,
    d3: Memory2,
    r3: Registers,
    res3: Result<(), Stop>,
    m2: Memory1,
    d2: Memory2,
    r2: Registers,
    res: Result<(), Trap>,
) -> bool {
    &&& d2 == d3
    &&& match res3 {
        Ok(()) => res is Ok && m2 == m3 && r2 == r3,
        Err(Stop::Ir(c)) => res is Ok && ir_spec(m3, r3, m2, r2, c),
        Err(Stop::Trap(t)) => res == Err::<(), Trap>(t) && m2 == m3 && r2 == r3,
    }
}

/// One CYCLE on a running machine: in user/macro mode the first pending
/// request v[j] is cleared and IR(−40 + j) entered; otherwise k := m[ch, ca]
/// and the syllable is executed.
pub open spec fn cycle_spec(
    m1: Memory1,
    d1: Memory2,
    r1: Registers,
    m2: Memory1,
    d2: Memory2,
    r2: Registers,
    res: Result<(), Trap>,
) -> bool {
    let j = first_request(r1.v.trits@, 0);
    if r1.spec_mode() != Mode::Interrupt && j < 9 {
        &&& res is Ok
        &&& d2 == d1
        &&& exists|rv: Registers|
            #![trigger ir_spec(m1, rv, m2, r2, InterruptCause::of_value(j - 40))]
            rv.v.trits@ == r1.v.trits@.update(j, Trit::Z) && rv == (Registers { v: rv.v, ..r1 })
                && ir_spec(m1, rv, m2, r2, InterruptCause::of_value(j - 40))
    } else {
        let rk = with_k(r1, m1.cell(r1.spec_ch(), r1.spec_ca()));
        exists|m3: Memory1, d3: Memory2, r3: Registers, res3: Result<(), Stop>|
            #![trigger exec_spec_of(m1, d1, rk, m3, d3, r3, res3)]
            exec_spec_of(m1, d1, rk, m3, d3, r3, res3) && after_spec(m3, d3, r3, res3, m2, d2, r2, res)
    }
}

/// Scans v[0..9] for the first pending request.
fn find_request(regs: &Registers) -> (r: usize)
    ensures
        r == first_request(regs.v.trits@, 0),
        r <= 9,
{
    let mut j: usize = 0;
    while j < 9
        invariant
            j <= 9,
            first_request(regs.v.trits@, j as int) == first_request(regs.v.trits@, 0),
        decreases 9 - j,
    {
        if regs.v.trits[j] == Trit::P {
            return j;
        }
        j = j + 1;
    }
    j
}

/// Byte sent by PASS from a group buffer: bit b (b < 6) for each P trit
/// g[b]; bit 6 for the sign track g[6] = P.
pub open spec fn g_row(g: TritWord<7>) -> int {
    (if g.trits[0] == Trit::P { 1int } else { 0 }) + (if g.trits[1] == Trit::P { 2int } else { 0 })
        + (if g.trits[2] == Trit::P { 4int } else { 0 }) + (if g.trits[3] == Trit::P { 8int } else { 0 })
        + (if g.trits[4] == Trit::P { 16int } else { 0 }) + (if g.trits[5] == Trit::P { 32int } else { 0 })
        + (if g.trits[6] == Trit::P { 64int } else { 0 })
}

/// A group buffer filled by TAKE from `byte`: g[b] = P for each set bit
/// b < 6 (Z otherwise); the sign track g[6] = P when bit 6 is set, N otherwise.
pub open spec fn g_from_row(g: TritWord<7>, byte: u8) -> bool {
    &&& forall|b: int| 0 <= b < 6 ==> #[trigger] g.trits[b] == (if bit(byte, b) { Trit::P } else { Trit::Z })
    &&& g.trits[6] == (if bit(byte, 6) { Trit::P } else { Trit::N })
}

/// The effect of servicing group `idx` on its buffer g, sync trigger a and
/// completion request v[idx+1], where `ans` is what the device of a TAKE
/// answered. A TAKE completes only when the device had a byte, and then g
/// holds the row of that byte; otherwise the group keeps waiting unchanged.
pub open spec fn group_served(r1: Registers, r2: Registers, idx: int, ans: Option<u8>) -> bool {
    let dev = r1.u[idx].field(2, 3);
    let dir = r1.u[idx].trits[0];
    if r1.a[idx] != Trit::P {
        r2.a[idx] == r1.a[idx] && r2.g[idx] == r1.g[idx] && r2.v.trits[idx + 1] == r1.v.trits[idx + 1]
    } else if dev == 0 || dir == Trit::Z {
        r2.a[idx] == Trit::Z && r2.g[idx] == r1.g[idx] && r2.v.trits[idx + 1] == r1.v.trits[idx + 1]
    } else if dir == Trit::P {
        r2.a[idx] == Trit::Z && r2.g[idx] == r1.g[idx] && r2.v.trits[idx + 1] == Trit::P
    } else {
        match ans {
            Some(b) => r2.a[idx] == Trit::Z && r2.v.trits[idx + 1] == Trit::P && g_from_row(r2.g[idx], b),
            None => r2.a[idx] == Trit::P && r2.g[idx] == r1.g[idx] && r2.v.trits[idx + 1] == r1.v.trits[idx + 1],
        }
    }
}

/// The device address of group `idx`: group idx − 1, number u[idx, 3:4].
pub open spec fn group_addr(r: Registers, idx: int) -> (i8, i8) {
    ((idx - 1) as i8, r.u[idx].field(2, 3) as i8)
}

/// Group `idx` is armed for TAKE from a device that is attached.
pub open spec fn takes(r: Registers, keys: Seq<(i8, i8)>, idx: int) -> bool {
    &&& r.a[idx] == Trit::P
    &&& r.u[idx].field(2, 3) != 0
    &&& r.u[idx].trits[0] == Trit::N
    &&& keys.contains(group_addr(r, idx))
}

/// The devices asked by servicing groups 0..n, group by group, each with
/// the answer `ans[i]` of its group.
pub open spec fn service_asked(r: Registers, keys: Seq<(i8, i8)>, ans: Seq<Option<u8>>, n: int) -> Seq<
    ((i8, i8), Option<u8>),
>
    decreases n,
{
    if n <= 0 {
        Seq::empty()
    } else {
        service_asked(r, keys, ans, n - 1) + (if takes(r, keys, n - 1) {
            seq![(group_addr(r, n - 1), ans[n - 1])]
        } else {
            Seq::empty()
        })
    }
}

proof fn lemma_service_asked_prefix(r: Registers, keys: Seq<(i8, i8)>, a1: Seq<Option<u8>>, a2: Seq<Option<u8>>, n: int)
    requires
        forall|i: int| 0 <= i < n ==> a1[i] == a2[i],
    ensures
        service_asked(r, keys, a1, n) == service_asked(r, keys, a2, n),
    decreases n,
{
    if n > 0 {
        lemma_service_asked_prefix(r, keys, a1, a2, n - 1);
    }
}

/// The byte a PASS on group `idx` hands to its device, with the device's
/// address (group idx − 1, number u[idx, 3:4]): one when the group is armed
/// for PASS and a device is attached there, none otherwise.
pub open spec fn pass_sent(r: Registers, keys: Seq<(i8, i8)>, idx: int) -> Seq<((i8, i8), u8)> {
    let dev = r.u[idx].field(2, 3);
    let addr: (i8, i8) = ((idx - 1) as i8, dev as i8);
    if r.a[idx] == Trit::P && dev != 0 && r.u[idx].trits[0] == Trit::P && keys.contains(addr) {
        seq![(addr, g_row(r.g[idx]) as u8)]
    } else {
        Seq::empty()
    }
}

/// The bytes servicing groups 0..n hands to devices, group by group.
pub open spec fn service_sent(r: Registers, keys: Seq<(i8, i8)>, n: int) -> Seq<((i8, i8), u8)>
    decreases n,
{
    if n <= 0 {
        Seq::empty()
    } else {
        service_sent(r, keys, n - 1) + pass_sent(r, keys, n - 1)
    }
}

/// The IO bus, the memories and the registers of the machine.
pub struct Machine {
    pub mem: Memory1,
    pub mem2: Memory2,
    pub regs: Registers,
    pub io: IoBus,
}

/// The I/O service took `m1` to `m2` with the TAKE answers `ans`: each
/// armed TAKE group with an attached device asked that device once, in
/// group order, and got `ans[i]` (the other groups got no answer); each
/// group's buffer, trigger and completion request are as `group_served`
/// says for its answer.
pub open spec fn served_with(m1: Machine, m2: Machine, ans: Seq<Option<u8>>) -> bool {
    &&& ans.len() == 3
    &&& forall|i: int| 0 <= i < 3 ==> group_served(m1.regs, m2.regs, i, ans[i])
    &&& forall|i: int| 0 <= i < 3 && !takes(m1.regs, m1.io.keys(), i) ==> ans[i] is None
    &&& m2.io.asked() == m1.io.asked() + service_asked(m1.regs, m1.io.keys(), ans, 3)
}

/// The I/O service took `m1` to `m2`: the groups served with the answers
/// their devices gave, the other registers, the memories and the device
/// addresses unchanged, and the PASS bytes handed to their devices in group
/// order.
pub open spec fn serviced(m1: Machine, m2: Machine) -> bool {
    &&& exists|ans: Seq<Option<u8>>| #[trigger] served_with(m1, m2, ans)
    &&& m2.regs.v.trits[0] == m1.regs.v.trits[0]
    &&& forall|j: int| 4 <= j < 9 ==> #[trigger] m2.regs.v.trits[j] == m1.regs.v.trits[j]
    &&& m2.regs == (Registers { g: m2.regs.g, v: m2.regs.v, a: m2.regs.a, ..m1.regs })
    &&& m2.mem == m1.mem
    &&& m2.mem2 == m1.mem2
    &&& m2.io.keys() == m1.io.keys()
    &&& m2.io.sent() == m1.io.sent() + service_sent(m1.regs, m1.io.keys(), 3)
}

/// One CYCLE of a running machine took `m1` to `m2` with result `res`
/// (the I/O bus is untouched by a cycle).
pub open spec fn cycled(m1: Machine, m2: Machine, res: Result<(), Trap>) -> bool {
    &&& m1.regs.start == Trit::P
    &&& m2.wf()
    &&& m2.io == m1.io
    &&& cycle_spec(m1.mem, m1.mem2, m1.regs, m2.mem, m2.mem2, m2.regs, res)
}

/// A successful CYCLE followed by the I/O service took `m1` to `m2`.
pub open spec fn ran_once(m1: Machine, m2: Machine) -> bool {
    exists|mid: Machine| #[trigger] cycled(m1, mid, Ok(())) && serviced(mid, m2)
}

/// Each state of `t` follows from the one before by `ran_once`.
pub open spec fn ran(t: Seq<Machine>) -> bool
    decreases t.len(),
{
    if t.len() <= 1 {
        true
    } else {
        ran(t.drop_last()) && ran_once(t[t.len() - 2], t.last())
    }
}

/// The hook was called after each successful cycle of `t`: with the state
/// that cycle and its I/O service reached and the number of the cycle (0, 1,
/// 2, ...).
pub open spec fn hook_saw<F: FnMut(&Machine, u64)>(hook: F, t: Seq<Machine>) -> bool {
    forall|i: int| 1 <= i < t.len() ==> call_ensures(hook, (&#[trigger] t[i], (i - 1) as u64), ())
}

/// A run from `start` with the budget `max_steps` and the hook `hook`
/// went through the states `t` (successful cycles, each followed by the I/O
/// service and a hook call) and ended in `fin` with the outcome `r`.
pub open spec fn run_by<F: FnMut(&Machine, u64)>(
    hook: F,
    t: Seq<Machine>,
    start: Machine,
    max_steps: int,
    fin: Machine,
    r: RunOutcome,
) -> bool {
    &&& t.len() >= 1
    &&& t[0] == start
    &&& ran(t)
    &&& run_end(t, max_steps, fin, r)
    &&& hook_saw(hook, t)
}

/// What `run_with` returns after the successful cycles `t` (from the
/// initial state to `last`), ending in the state `fin` with outcome `r`:
/// the budget ran out after exactly `max_steps` cycles with the machine
/// still running; the machine was found stopped; or the next cycle failed,
/// FINISH giving `Finished` and any other trap `Trap(t)`.
pub open spec fn run_end(t: Seq<Machine>, max_steps: int, fin: Machine, r: RunOutcome) -> bool {
    let last = t.last();
    match r {
        RunOutcome::StepLimitExceeded => t.len() == max_steps + 1 && fin == last && last.regs.start == Trit::P,
        RunOutcome::Finished => t.len() <= max_steps + 1 && (
            (fin == last && last.regs.start != Trit::P)
            || (t.len() <= max_steps && cycled(last, fin, Err(Trap::Finish)))),
        RunOutcome::Trap(tr) => tr != Trap::Finish && t.len() <= max_steps && cycled(last, fin, Err(tr)),
    }
}

impl Machine {
    /// Well-formedness: the drum has all its pages.
    pub open spec fn wf(&self) -> bool {
        self.mem2.wf()
    }

    /// Inert machine: memories zeroed, registers zeroed, start = Z, no devices.
    pub fn new() -> (r: Self)
        ensures
            r.wf(),
            forall|p: int, a: int| valid_page(p) && valid_addr(a) ==> (#[trigger] r.mem.cell(p, a)).is_zero(),
            forall|k: int, q: int, a: int|
                valid_drum(k, q) && valid_addr(a) ==> (#[trigger] r.mem2.drum(k, q).at(a)).is_zero(),
            r.regs.is_zeroed(),
            r.io.keys().len() == 0,
    {
        let regs = Registers::zeroed();
        Machine { mem: Memory1::zeroed(), mem2: Memory2::zeroed(), regs, io: IoBus::new() }
    }

    /// Power-on sequence (START): start := 1, I/O triggers cleared,
    /// mode := interrupt, ch := 12, ca := −40, ph := 0, pa := 0, Y := 0.
    pub fn power_on(&mut self)
        ensures
            final(self).regs.start == Trit::P,
            final(self).regs.a@ == seq![Trit::Z, Trit::Z, Trit::Z],
            final(self).regs.spec_mode() == Mode::Interrupt,
            final(self).regs.spec_ch() == 12,
            final(self).regs.spec_ca() == -40,
            final(self).regs.spec_ph() == 0,
            final(self).regs.spec_pa() == 0,
            final(self).regs.y.is_zero(),
            forall|i: int| 8 <= i < 32 ==> #[trigger] final(self).regs.c.trits[i] == old(self).regs.c.trits[i],
            forall|i: int| 5 <= i < 10 ==> #[trigger] final(self).regs.p.trits[i] == old(self).regs.p.trits[i],
            final(self).regs == (Registers {
                c: final(self).regs.c,
                p: final(self).regs.p,
                y: final(self).regs.y,
                a: final(self).regs.a,
                start: Trit::P,
                ..old(self).regs
            }),
            final(self).mem == old(self).mem,
            final(self).mem2 == old(self).mem2,
            final(self).io == old(self).io,
    {
        proof {
            lemma_pow3_small();
        }
        self.regs.start = Trit::P;
        self.regs.a = [Trit::Z, Trit::Z, Trit::Z];
        self.regs.set_mode(Mode::Interrupt);
        self.regs.set_ch(12);
        let ghost c1 = self.regs.c;
        self.regs.set_ca(-40);
        self.regs.set_ph(0);
        let ghost p1 = self.regs.p;
        self.regs.set_pa(0);
        self.regs.y = Word::zero();
        proof {
            crate::registers::lemma_field_frame(self.regs.c.trits@, c1.trits@, 1, 3);
            crate::registers::lemma_field_frame(self.regs.p.trits@, p1.trits@, 0, 1);
            lemma_wrap_small(12, 27);
            lemma_wrap_small(-40, 81);
            lemma_wrap_small(0, 9);
            lemma_wrap_small(0, 27);
            assert(self.regs.a@ =~= seq![Trit::Z, Trit::Z, Trit::Z]);
        }
    }

    pub fn is_running(&self) -> (r: bool)
        ensures
            r == (self.regs.start == Trit::P),
    {
        self.regs.start == Trit::P
    }

    /// T — the stack window (top 18 trits of the stack).
    pub fn stack_t(&self) -> (r: Option<Word>)
        ensures
            r == Some(t_word(self.mem, self.regs)),
    {
        Some(get_t(&self.mem, &self.regs))
    }

    pub fn set_stack_t(&mut self, w: &Word) -> (r: Result<(), MemError>)
        ensures
            r is Ok,
            holds_word(final(self).mem, old(self).regs.spec_ph(), ws(old(self).regs), *w),
            same_except(final(self).mem, old(self).mem, old(self).regs.spec_ph(), ws(old(self).regs), ws(old(self).regs) + 2),
            final(self).regs == old(self).regs,
            final(self).mem2 == old(self).mem2,
            final(self).io == old(self).io,
    {
        put_t(&mut self.mem, &self.regs, w);
        Ok(())
    }

    /// S — the stack cell directly behind the window.
    pub fn stack_s(&self) -> (r: Option<Word>)
        ensures
            r is Some <==> self.regs.spec_pa() != -13,
            r is Some ==> r == Some(s_word(self.mem, self.regs)),
    {
        get_s(&self.mem, &self.regs)
    }

    pub fn set_stack_s(&mut self, w: &Word) -> (r: Result<(), MemError>)
        ensures
            r is Ok <==> old(self).regs.spec_pa() != -13,
            r is Ok ==> holds_word(final(self).mem, old(self).regs.spec_ph(), bs(old(self).regs), *w)
                && same_except(final(self).mem, old(self).mem, old(self).regs.spec_ph(), bs(old(self).regs), bs(old(self).regs) + 2),
            r is Err ==> final(self).mem == old(self).mem,
            final(self).regs == old(self).regs,
            final(self).mem2 == old(self).mem2,
            final(self).io == old(self).io,
    {
        proof {
            self.regs.lemma_ranges();
        }
        write_word_at(&mut self.mem, self.regs.ph(), 3 * self.regs.pa() - 4, w)
    }

    /// t — the senior syllable of the window, m[ph, 3pa−1].
    pub fn stack_t_senior(&self) -> (r: Option<Tryte>)
        ensures
            r == Some(t_sen(self.mem, self.regs)),
    {
        Some(get_t_senior(&self.mem, &self.regs))
    }

    pub fn set_stack_t_senior(&mut self, v: Tryte) -> (r: Result<(), MemError>)
        ensures
            r is Ok,
            final(self).mem.cell(old(self).regs.spec_ph(), ws(old(self).regs)) == v,
            same_except(final(self).mem, old(self).mem, old(self).regs.spec_ph(), ws(old(self).regs), ws(old(self).regs)),
            final(self).regs == old(self).regs,
            final(self).mem2 == old(self).mem2,
            final(self).io == old(self).io,
    {
        put_t_senior(&mut self.mem, &self.regs, v);
        Ok(())
    }

    /// k := m[ch, ca] (always on the memory: ch and ca are fields).
    pub fn fetch_syllable(&mut self) -> (r: Option<()>)
        ensures
            r is Some,
            final(self).regs == with_k(old(self).regs, old(self).mem.cell(old(self).regs.spec_ch(), old(self).regs.spec_ca())),
            final(self).mem == old(self).mem,
            final(self).mem2 == old(self).mem2,
            final(self).io == old(self).io,
    {
        proof {
            self.regs.lemma_ranges();
        }
        let s = self.mem.read(self.regs.ch(), self.regs.ca()).unwrap();
        self.regs.set_k(&s);
        proof {
            assert(self.regs.k.trits == s.trits);
            assert(self.regs == with_k(old(self).regs, s));
        }
        Some(())
    }

    /// IR: enter the interrupt routine for `cause`. The vector is the
    /// syllable m[13, w]; the program state and the stack pointer are
    /// saved; the program continues at (ch, ca) = (13, −13).
    pub fn enter_interrupt(&mut self, cause: InterruptCause)
        ensures
            ir_spec(old(self).mem, old(self).regs, final(self).mem, final(self).regs, cause),
            final(self).mem2 == old(self).mem2,
            final(self).io == old(self).io,
    {
        enter_ir(&mut self.mem, &mut self.regs, cause);
    }

    /// The byte PASS sends from group buffer `idx` (0..3).
    pub fn pass_byte(&self, idx: usize) -> (r: u8)
        requires
            idx < 3,
        ensures
            r == g_row(self.regs.g[idx as int]),
    {
        let g = &self.regs.g[idx];
        let b0: u8 = if g.trits[0] == Trit::P { 1 } else { 0 };
        let b1: u8 = if g.trits[1] == Trit::P { 2 } else { 0 };
        let b2: u8 = if g.trits[2] == Trit::P { 4 } else { 0 };
        let b3: u8 = if g.trits[3] == Trit::P { 8 } else { 0 };
        let b4: u8 = if g.trits[4] == Trit::P { 16 } else { 0 };
        let b5: u8 = if g.trits[5] == Trit::P { 32 } else { 0 };
        let b6: u8 = if g.trits[6] == Trit::P { 64 } else { 0 };
        b0 + b1 + b2 + b3 + b4 + b5 + b6
    }

    /// Completes a transfer on group `idx` (0..3): g[idx] := the pattern of
    /// `byte` when one was taken, then v[idx+1] := 1 and a[idx] := 0.
    pub fn complete_transfer(&mut self, idx: usize, byte: Option<u8>)
        requires
            idx < 3,
        ensures
            byte matches Some(b) ==> g_from_row(final(self).regs.g[idx as int], b),
            byte is None ==> final(self).regs.g == old(self).regs.g,
            forall|i: int| 0 <= i < 3 && i != idx ==> #[trigger] final(self).regs.g[i] == old(self).regs.g[i],
            final(self).regs.v.trits@ == old(self).regs.v.trits@.update(idx + 1, Trit::P),
            final(self).regs.a@ == old(self).regs.a@.update(idx as int, Trit::Z),
            final(self).regs == (Registers { g: final(self).regs.g, v: final(self).regs.v, a: final(self).regs.a, ..old(self).regs }),
            final(self).mem == old(self).mem,
            final(self).mem2 == old(self).mem2,
            final(self).io == old(self).io,
    {
        if let Some(b) = byte {
            let mut g = self.regs.g[idx];
            let mut i: u8 = 0;
            while i < 6
                invariant
                    i <= 6,
                    forall|j: int| 0 <= j < i ==> #[trigger] g.trits[j] == (if bit(b, j) { Trit::P } else { Trit::Z }),
                decreases 6 - i,
            {
                g.trits[i as usize] = if crate::io::test_bit(b, i) { Trit::P } else { Trit::Z };
                i = i + 1;
            }
            g.trits[6] = if crate::io::test_bit(b, 6) { Trit::P } else { Trit::N };
            self.regs.g[idx] = g;
        }
        self.regs.v.set_trit(idx + 1, Trit::P);
        self.regs.a[idx] = Trit::Z;
    }

    /// Services one transfer for every group whose sync trigger a[i] is set
    /// (the INOUT process): PASS (u[i,1] = 1) sends the g pattern to the
    /// device u[i,3:4] of group i and completes; TAKE (u[i,1] = −1) fills g
    /// from the device and completes when a byte is available (at tape end
    /// the group keeps waiting); device 0 or direction 0 switches the group
    /// off.
    pub fn service_io(&mut self)
        ensures
            serviced(*old(self), *final(self)),
    {
        let mut idx: usize = 0;
        let ghost mut ans: Seq<Option<u8>> = seq![None, None, None];
        proof {
            assert(old(self).io.sent() + service_sent(old(self).regs, old(self).io.keys(), 0) =~= old(self).io.sent());
            assert(old(self).io.asked() + service_asked(old(self).regs, old(self).io.keys(), ans, 0)
                =~= old(self).io.asked());
        }
        while idx < 3
            invariant
                idx <= 3,
                ans.len() == 3,
                forall|i: int| idx <= i < 3 ==> ans[i] is None,
                forall|i: int| 0 <= i < idx ==> group_served(old(self).regs, self.regs, i, ans[i]),
                forall|i: int| 0 <= i < 3 && !takes(old(self).regs, old(self).io.keys(), i) ==> ans[i] is None,
                self.io.asked() == old(self).io.asked() + service_asked(old(self).regs, old(self).io.keys(), ans, idx as int),
                forall|i: int| idx <= i < 3 ==> #[trigger] self.regs.g[i] == old(self).regs.g[i],
                forall|i: int| idx <= i < 3 ==> #[trigger] self.regs.a[i] == old(self).regs.a[i],
                forall|j: int| idx + 1 <= j < 4 ==> #[trigger] self.regs.v.trits[j] == old(self).regs.v.trits[j],
                self.regs.v.trits[0] == old(self).regs.v.trits[0],
                forall|j: int| 4 <= j < 9 ==> #[trigger] self.regs.v.trits[j] == old(self).regs.v.trits[j],
                self.regs == (Registers { g: self.regs.g, v: self.regs.v, a: self.regs.a, ..old(self).regs }),
                self.mem == old(self).mem,
                self.mem2 == old(self).mem2,
                self.io.keys() == old(self).io.keys(),
                self.io.sent() == old(self).io.sent() + service_sent(old(self).regs, old(self).io.keys(), idx as int),
            decreases 3 - idx,
        {
            let ghost r0 = self.regs;
            let ghost s0 = self.io.sent();
            let ghost q0 = self.io.asked();
            let ghost ans0 = ans;
            proof {
                assert(self.regs.g[idx as int] == old(self).regs.g[idx as int]);
                assert(self.regs.a[idx as int] == old(self).regs.a[idx as int]);
                assert(self.regs.v.trits[idx + 1] == old(self).regs.v.trits[idx + 1]);
            }
            if self.regs.a[idx] == Trit::P {
                let dev = self.regs.u[idx].field_i32(2, 3);
                let dir = self.regs.u[idx].trits[0];
                proof {
                    lemma_field_range(self.regs.u[idx as int].trits@, 2, 3);
                    lemma_pow3_small();
                }
                if dev == 0 || dir == Trit::Z {
                    self.regs.a[idx] = Trit::Z;
                } else if dir == Trit::P {
                    let byte = self.pass_byte(idx);
                    let _ = self.io.write(idx as i8 - 1, dev as i8, byte);
                    self.complete_transfer(idx, None);
                } else {
                    let got = self.io.read(idx as i8 - 1, dev as i8);
                    proof {
                        ans = ans.update(idx as int, got);
                    }
                    match got {
                        Some(b) => {
                            self.complete_transfer(idx, Some(b));
                            assert(g_from_row(self.regs.g[idx as int], b));
                        },
                        None => {},
                    }
                }
            }
            proof {
                let ro = old(self).regs;
                let ko = old(self).io.keys();
                assert(ro.u[idx as int] == self.regs.u[idx as int]);
                assert(self.io.sent() == s0 + pass_sent(ro, ko, idx as int));
                assert(service_sent(ro, ko, idx + 1) == service_sent(ro, ko, idx as int) + pass_sent(ro, ko, idx as int));
                assert(old(self).io.sent() + service_sent(ro, ko, idx + 1) =~= s0 + pass_sent(ro, ko, idx as int));
                assert forall|i: int| 0 <= i < idx implies ans[i] == ans0[i] by {}
                lemma_service_asked_prefix(ro, ko, ans, ans0, idx as int);
                let step_asked = if takes(ro, ko, idx as int) {
                    seq![(group_addr(ro, idx as int), ans[idx as int])]
                } else {
                    Seq::<((i8, i8), Option<u8>)>::empty()
                };
                assert(self.io.asked() == q0 + step_asked);
                assert(service_asked(ro, ko, ans, idx + 1) == service_asked(ro, ko, ans, idx as int) + step_asked);
                assert(old(self).io.asked() + service_asked(ro, ko, ans, idx + 1) =~= q0 + step_asked);
                assert(group_served(old(self).regs, self.regs, idx as int, ans[idx as int]));
                assert forall|i: int| 0 <= i < 3 && i != idx implies #[trigger] self.regs.g[i] == r0.g[i]
                    && self.regs.a[i] == r0.a[i] && self.regs.v.trits[i + 1] == r0.v.trits[i + 1] by {}
                assert forall|i: int| 0 <= i < idx + 1 implies group_served(old(self).regs, self.regs, i, ans[i]) by {
                    if i < idx {
                        assert(group_served(old(self).regs, r0, i, ans0[i]));
                        assert(self.regs.g[i] == r0.g[i]);
                        assert(self.regs.a[i] == r0.a[i]);
                        assert(self.regs.v.trits[i + 1] == r0.v.trits[i + 1]);
                    }
                }
            }
            idx = idx + 1;
        }
        proof {
            assert(served_with(*old(self), *self, ans));
        }
    }

    /// Runs the machine with a per-step hook (called after the I/O service
    /// with the machine state and the step number).
    pub fn run_with<F: FnMut(&Machine, u64)>(&mut self, max_steps: u64, hook: F) -> (r: RunOutcome)
        requires
            old(self).wf(),
            forall|m: &Machine, s: u64| call_requires(hook, (m, s)),
        ensures
            final(self).wf(),
            old(self).regs.start != Trit::P ==> r == RunOutcome::Finished && *final(self) == *old(self),
            old(self).regs.start == Trit::P && max_steps == 0 ==> r == RunOutcome::StepLimitExceeded
                && *final(self) == *old(self),
            exists|t: Seq<Machine>|
                #![trigger run_end(t, max_steps as int, *final(self), r)]
                run_by(hook, t, *old(self), max_steps as int, *final(self), r),
    {
        let mut steps: u64 = 0;
        let mut call = hook;
        let ghost mut trace: Seq<Machine> = seq![*self];
        loop
            invariant
                self.wf(),
                steps <= max_steps,
                steps == 0 ==> *self == *old(self),
                steps > 0 ==> old(self).regs.start == Trit::P,
                forall|m: &Machine, s: u64| call_requires(hook, (m, s)),
                trace.len() == steps + 1,
                trace[0] == *old(self),
                trace.last() == *self,
                ran(trace),
                call == hook,
                hook_saw(hook, trace),
            decreases max_steps - steps,
        {
            if !self.is_running() {
                proof {
                    assert(run_end(trace, max_steps as int, *self, RunOutcome::Finished));
                    assert(run_by(hook, trace, *old(self), max_steps as int, *self, RunOutcome::Finished));
                }
                return RunOutcome::Finished;
            }
            if steps >= max_steps {
                proof {
                    assert(run_end(trace, max_steps as int, *self, RunOutcome::StepLimitExceeded));
                    assert(run_by(hook, trace, *old(self), max_steps as int, *self, RunOutcome::StepLimitExceeded));
                }
                return RunOutcome::StepLimitExceeded;
            }
            let ghost before = *self;
            match self.step() {
                Ok(()) => {
                    let ghost mid = *self;
                    self.service_io();
                    call(self, steps);
                    steps = steps + 1;
                    proof {
                        assert(cycled(before, mid, Ok(())));
                        assert(ran_once(before, *self));
                        let t2 = trace.push(*self);
                        assert(t2.drop_last() =~= trace);
                        assert(t2[t2.len() - 2] == before);
                        assert forall|i: int| 1 <= i < t2.len() implies call_ensures(hook, (&#[trigger] t2[i], (i - 1) as u64), ()) by {
                            if i < trace.len() {
                                assert(t2[i] == trace[i]);
                            }
                        }
                        trace = t2;
                    }
                },
                Err(Trap::Finish) => {
                    proof {
                        assert(cycled(before, *self, Err(Trap::Finish)));
                        assert(run_end(trace, max_steps as int, *self, RunOutcome::Finished));
                            assert(run_by(hook, trace, *old(self), max_steps as int, *self, RunOutcome::Finished));
                    }
                    return RunOutcome::Finished;
                },
                Err(t) => {
                    proof {
                        assert(cycled(before, *self, Err(t)));
                        assert(run_end(trace, max_steps as int, *self, RunOutcome::Trap(t)));
                            assert(run_by(hook, trace, *old(self), max_steps as int, *self, RunOutcome::Trap(t)));
                    }
                    return RunOutcome::Trap(t);
                },
            }
        }
    }

    /// Runs the machine: step + I/O service until FINISH, a trap, or the
    /// step budget is exhausted.
    pub fn run(&mut self, max_steps: u64) -> (r: RunOutcome)
        requires
            old(self).wf(),
        ensures
            final(self).wf(),
            old(self).regs.start != Trit::P ==> r == RunOutcome::Finished && *final(self) == *old(self),
            old(self).regs.start == Trit::P && max_steps == 0 ==> r == RunOutcome::StepLimitExceeded
                && *final(self) == *old(self),
            exists|t: Seq<Machine>|
                t.len() >= 1 && t[0] == *old(self) && ran(t) && #[trigger] run_end(t, max_steps as int, *final(self), r),
    {
        self.run_with(max_steps, |m: &Machine, s: u64| {})
    }

    /// One CYCLE: poll `v`, fetch, dispatch. Conditions routed to IR enter
    /// the interrupt routine inside this call; FINISH and unsupported layers
    /// surface as `Err`.
    pub fn step(&mut self) -> (res: Result<(), Trap>)
        requires
            old(self).wf(),
        ensures
            final(self).wf(),
            final(self).io == old(self).io,
            old(self).regs.start != Trit::P ==> res == Err::<(), Trap>(Trap::Finish) && final(self).mem
                == old(self).mem && final(self).mem2 == old(self).mem2 && final(self).regs == old(self).regs,
            old(self).regs.start == Trit::P ==> cycle_spec(
                old(self).mem,
                old(self).mem2,
                old(self).regs,
                final(self).mem,
                final(self).mem2,
                final(self).regs,
                res,
            ),
    {
        if !self.is_running() {
            return Err(Trap::Finish);
        }
        proof {
            self.regs.lemma_ranges();
        }
        if self.regs.mode() != Mode::Interrupt {
            let j = find_request(&self.regs);
            if j < 9 {
                self.regs.v.set_trit(j, Trit::Z);
                let ghost rv = self.regs;
                let cause = InterruptCause::from_value(j as i8 - 40).unwrap();
                enter_ir(&mut self.mem, &mut self.regs, cause);
                proof {
                    assert(ir_spec(old(self).mem, rv, self.mem, self.regs, InterruptCause::of_value(j - 40)));
                }
                return Ok(());
            }
        }
        self.fetch_syllable();
        let ghost m1 = self.mem;
        let ghost d1 = self.mem2;
        let ghost rk = self.regs;
        let r = if self.regs.is_op_syllable() {
            match self.regs.op_group() {
                OpGroup::Basic => exec_basic(&mut self.mem, &mut self.regs),
                OpGroup::Spec => exec_spec(&mut self.mem, &mut self.mem2, &mut self.regs),
                OpGroup::Macro => exec_macro(&mut self.mem, &mut self.regs),
            }
        } else if self.regs.mode() != Mode::Interrupt && self.regs.pa() == 13 {
            Err(Stop::Ir(InterruptCause::StackOverflow))
        } else {
            let pa = self.regs.pa();
            self.regs.set_pa(pa + 1);
            let ghost rp = self.regs;
            proof {
                lemma_pow3_small();
            }
            let r = ref_syllable(&mut self.mem, &mut self.regs);
            proof {
                assert(refsyl_spec(m1, rp, self.mem, self.regs, r));
            }
            r
        };
        let ghost m3 = self.mem;
        let ghost d3 = self.mem2;
        let ghost r3 = self.regs;
        proof {
            assert(exec_spec_of(m1, d1, rk, m3, d3, r3, r));
        }
        match r {
            Ok(()) => Ok(()),
            Err(Stop::Ir(cause)) => {
                enter_ir(&mut self.mem, &mut self.regs, cause);
                Ok(())
            },
            Err(Stop::Trap(t)) => Err(t),
        }
    }
}

/// Writing the stack window T and reading it back gives the written word;
/// the same holds of S, the cell behind the window.
pub proof fn law_stack_window_roundtrip(m1: Machine, m2: Machine, w: Word, behind: bool)
    requires
        m2.regs == m1.regs,
        holds_word(m2.mem, m1.regs.spec_ph(), if behind { bs(m1.regs) } else { ws(m1.regs) }, w),
    ensures
        behind ==> s_word(m2.mem, m2.regs) == w,
        !behind ==> t_word(m2.mem, m2.regs) == w,
{
    lemma_holds_word_cells(m2.mem, m1.regs.spec_ph(), if behind { bs(m1.regs) } else { ws(m1.regs) }, w);
}

/// A single-sign syllable written to a group buffer (TRANSOUT) reads back
/// unchanged (TRANSIN), also after the buffer went out as a tape row and
/// came back in (PASS, then TAKE of the same byte).
pub proof fn law_group_buffer_roundtrip(g: TritWord<7>, g2: TritWord<7>, t: Tryte)
    requires
        transout(g, t),
        crate::io::single_sign(t),
        g_from_row(g2, g_row(g) as u8),
    ensures
        forall|j: int| 0 <= j < 6 ==> #[trigger] transin_trit(g, j) == t.trits[j],
        forall|j: int| 0 <= j < 6 ==> #[trigger] transin_trit(g2, j) == t.trits[j],
{
    crate::io::lemma_row_bits(
        g.trits[0] == Trit::P,
        g.trits[1] == Trit::P,
        g.trits[2] == Trit::P,
        g.trits[3] == Trit::P,
        g.trits[4] == Trit::P,
        g.trits[5] == Trit::P,
        g.trits[6] == Trit::P,
    );
    assert forall|j: int| 0 <= j < 6 implies #[trigger] transin_trit(g, j) == t.trits[j] by {
        assert(g.trits[5 - j] == (if t.trits[j] == Trit::Z { Trit::Z } else { Trit::P }));
        if t.trits[j] == Trit::N {
            assert(exists|k: int| 0 <= k < 6 && #[trigger] t.trits[k] == Trit::N);
        } else if t.trits[j] == Trit::P {
            if exists|k: int| 0 <= k < 6 && #[trigger] t.trits[k] == Trit::N {
                assert(exists|k: int| 0 <= k < 6 && #[trigger] t.trits[k] == Trit::P);
            }
        }
    }
    assert forall|j: int| 0 <= j < 6 implies #[trigger] transin_trit(g2, j) == t.trits[j] by {
        assert(transin_trit(g, j) == t.trits[j]);
        assert(g.trits[5 - j] == (if t.trits[j] == Trit::Z { Trit::Z } else { Trit::P }));
        assert(g2.trits[5 - j] == (if bit(g_row(g) as u8, 5 - j) { Trit::P } else { Trit::Z }));
    }
}

/// EXCHP twice gives the stack pointers back: the second swap undoes the
/// first.
pub proof fn law_exchp_twice(p1: Seq<Trit>, p2: Seq<Trit>, p3: Seq<Trit>)
    requires
        p1.len() == 10,
        p2 == p1.subrange(5, 10) + p1.subrange(0, 5),
        p3 == p2.subrange(5, 10) + p2.subrange(0, 5),
    ensures
        p3 == p1,
{
    assert(p3 =~= p1);
}

/// LOADP right after COPYP restores the stack pointer that COPYP packed
/// into the window (COPYP leaves p as it was, so LOADP reads the same
/// window).
pub proof fn law_copyp_then_loadp(m2: Memory1, r1: Registers, r2: Registers, r3: Registers)
    requires
        field_val(word_of_cells(m2, r1.spec_ph(), ws(r1)).trits@, 4, 5) == r1.spec_ph(),
        field_val(word_of_cells(m2, r1.spec_ph(), ws(r1)).trits@, 8, 10) == r1.spec_pa(),
        r2.p == r1.p,
        r3.spec_ph() == t_field(m2, r2, 4, 5),
        r3.spec_pa() == t_field(m2, r2, 8, 10),
    ensures
        r3.spec_ph() == r1.spec_ph(),
        r3.spec_pa() == r1.spec_pa(),
{
}

/// S−T (BASIC 8) with a word behind the window: the step succeeds, the
/// word behind the old window becomes S − T wrapped to 18 trits, where S
/// and T are the words before the step, and pa drops by one.
pub proof fn law_s_minus_t(m1: Memory1, r1: Registers, m2: Memory1, r2: Registers, res: Result<(), Stop>)
    requires
        basic_spec(m1, r1, m2, r2, res),
        r1.spec_ko() == 8,
        r1.spec_pa() != -13,
    ensures
        res is Ok,
        word_val(m2, r1.spec_ph(), 3 * r1.spec_pa() - 4) == wrap(
            s_word(m1, r1).value() - t_word(m1, r1).value(),
            387420489,
        ),
        popped(r2, r1),
{
    lemma_basic_arith(m1, r1, m2, r2, res);
    lemma_cells_word_val(m1, r1.spec_ph(), ws(r1));
    lemma_cells_word_val(m1, r1.spec_ph(), bs(r1));
}

/// S+T (BASIC 10) with a word behind the window: the step succeeds, the
/// word behind the old window becomes S + T wrapped to 18 trits, where S
/// and T are the words before the step, and pa drops by one.
pub proof fn law_s_plus_t(m1: Memory1, r1: Registers, m2: Memory1, r2: Registers, res: Result<(), Stop>)
    requires
        basic_spec(m1, r1, m2, r2, res),
        r1.spec_ko() == 10,
        r1.spec_pa() != -13,
    ensures
        res is Ok,
        word_val(m2, r1.spec_ph(), 3 * r1.spec_pa() - 4) == wrap(
            s_word(m1, r1).value() + t_word(m1, r1).value(),
            387420489,
        ),
        popped(r2, r1),
{
    lemma_basic_arith(m1, r1, m2, r2, res);
    lemma_cells_word_val(m1, r1.spec_ph(), ws(r1));
    lemma_cells_word_val(m1, r1.spec_ph(), bs(r1));
}

/// The branch of `basic_spec` for S−T and S+T.
proof fn lemma_basic_arith(m1: Memory1, r1: Registers, m2: Memory1, r2: Registers, res: Result<(), Stop>)
    requires
        basic_spec(m1, r1, m2, r2, res),
        r1.spec_ko() == 8 || r1.spec_ko() == 10,
        r1.spec_pa() != -13,
    ensures
        r1.spec_ko() == 8 ==> s_gets(m1, r1, m2, r2, res, wrap(s_val(m1, r1) - t_val(m1, r1), 387420489)),
        r1.spec_ko() == 10 ==> s_gets(m1, r1, m2, r2, res, wrap(s_val(m1, r1) + t_val(m1, r1), 387420489)),
{
}

proof fn lemma_cells_word_val(m: Memory1, page: int, senior: int)
    ensures
        word_of_cells(m, page, senior).value() == word_val(m, page, senior),
{
    let w = word_of_cells(m, page, senior);
    assert(w.tryte_at(0).trits =~= m.cell(page, senior + 2).trits);
    assert(w.tryte_at(1).trits =~= m.cell(page, senior + 1).trits);
    assert(w.tryte_at(2).trits =~= m.cell(page, senior).trits);
    lemma_holds_word_val(m, page, senior, w);
}

/// A TAKE of the byte `b` on group `idx` fills its buffer bit by bit: trit
/// i (0..6) is P exactly when bit i of `b` is set and 0 otherwise; the
/// sign track, trit 6, is P when bit 6 is set and N otherwise.
pub proof fn law_take_bits(r1: Registers, r2: Registers, idx: int, b: u8)
    requires
        0 <= idx < 3,
        r1.a[idx] == Trit::P,
        r1.u[idx].field(2, 3) != 0,
        r1.u[idx].trits[0] == Trit::N,
        group_served(r1, r2, idx, Some(b)),
    ensures
        forall|i: int|
            0 <= i < 6 ==> #[trigger] r2.g[idx].trits[i] == (if (b as int / pow2_small(i)) % 2 == 1 {
                Trit::P
            } else {
                Trit::Z
            }),
        r2.g[idx].trits[6] == (if (b as int / 64) % 2 == 1 { Trit::P } else { Trit::N }),
{
    assert forall|i: int| 0 <= i < 6 implies #[trigger] r2.g[idx].trits[i] == (if (b as int / pow2_small(i)) % 2
        == 1 {
        Trit::P
    } else {
        Trit::Z
    }) by {
        assert(r2.g[idx].trits[i] == (if bit(b, i) { Trit::P } else { Trit::Z }));
    }
}

/// 2^i for the bit positions of a byte.
pub open spec fn pow2_small(i: int) -> int {
    if i == 0 {
        1
    } else if i == 1 {
        2
    } else if i == 2 {
        4
    } else if i == 3 {
        8
    } else if i == 4 {
        16
    } else if i == 5 {
        32
    } else {
        64
    }
}

/// PASS sends the byte whose bit i (0..7) is set exactly when trit i of
/// the group buffer is P.
pub proof fn law_pass_bits(g: TritWord<7>)
    ensures
        0 <= g_row(g) < 128,
        forall|i: int|
            0 <= i < 7 ==> ((g_row(g) / #[trigger] pow2_small(i)) % 2 == 1) == (g.trits[i] == Trit::P),
{
    crate::io::lemma_row_bits(
        g.trits[0] == Trit::P,
        g.trits[1] == Trit::P,
        g.trits[2] == Trit::P,
        g.trits[3] == Trit::P,
        g.trits[4] == Trit::P,
        g.trits[5] == Trit::P,
        g.trits[6] == Trit::P,
    );
    let row = g_row(g) as u8;
    assert forall|i: int| 0 <= i < 7 implies ((g_row(g) / #[trigger] pow2_small(i)) % 2 == 1) == (g.trits[i]
        == Trit::P) by {
        assert(row == g_row(g));
        if i == 0 {
            assert(bit(row, 0) == (g.trits[0] == Trit::P));
        } else if i == 1 {
            assert(bit(row, 1) == (g.trits[1] == Trit::P));
        } else if i == 2 {
            assert(bit(row, 2) == (g.trits[2] == Trit::P));
        } else if i == 3 {
            assert(bit(row, 3) == (g.trits[3] == Trit::P));
        } else if i == 4 {
            assert(bit(row, 4) == (g.trits[4] == Trit::P));
        } else if i == 5 {
            assert(bit(row, 5) == (g.trits[5] == Trit::P));
        } else {
            assert(bit(row, 6) == (g.trits[6] == Trit::P));
        }
    }
}

} // verus!

