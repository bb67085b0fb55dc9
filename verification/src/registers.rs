//! Processor registers of Setun-70.
//!
//! Trit indices are 0-based. In a field `trits[from..=to]` the MOST
//! significant trit is `from`; the value is the balanced sum
//! `Σ trits[from+i] · 3^(n−1−i)`.

use vstd::prelude::*;
use crate::arith::{pow3, wrap, lemma_pow3_pos, lemma_pow3_odd, lemma_wrap_unique};
use crate::trit::{Trit, bal_split};
use crate::tryte::Tryte;
use crate::word::Word;

verus! {

/// Balanced value of the field `s[from..=to]`, most significant trit at `from`.
pub open spec fn field_val(s: Seq<Trit>, from: int, to: int) -> int
    decreases to - from + 1,
{
    if to < from {
        0
    } else {
        field_val(s, from, to - 1) * 3 + s[to].val()
    }
}

/// Unfolding a field from its senior end.
pub proof fn lemma_field_senior(s: Seq<Trit>, from: int, to: int)
    requires
        from <= to,
    ensures
        field_val(s, from, to) == s[from].val() * pow3((to - from) as nat) + field_val(
            s,
            from + 1,
            to,
        ),
    decreases to - from,
{
    if from < to {
        lemma_field_senior(s, from, to - 1);
        let p = pow3((to - 1 - from) as nat);
        assert(pow3((to - from) as nat) == 3 * p);
        assert(field_val(s, from, to) == (s[from].val() * p + field_val(s, from + 1, to - 1)) * 3
            + s[to].val());
        assert((s[from].val() * p + field_val(s, from + 1, to - 1)) * 3 == s[from].val() * (3
            * p) + field_val(s, from + 1, to - 1) * 3) by (nonlinear_arith);
    } else {
        assert(field_val(s, from + 1, to) == 0);
        assert(field_val(s, from, to - 1) == 0);
    }
}

/// A field depends only on the trits inside it.
pub proof fn lemma_field_frame(s: Seq<Trit>, t: Seq<Trit>, from: int, to: int)
    requires
        forall|i: int| from <= i <= to ==> s[i] == t[i],
    ensures
        field_val(s, from, to) == field_val(t, from, to),
    decreases to - from + 1,
{
    if from <= to {
        lemma_field_frame(s, t, from, to - 1);
    }
}

/// Bounds of a field of n trits: |value| ≤ (3^n − 1)/2.
pub proof fn lemma_field_range(s: Seq<Trit>, from: int, to: int)
    ensures
        to >= from ==> -(pow3((to - from + 1) as nat) - 1) / 2 <= field_val(s, from, to) <= (
        pow3((to - from + 1) as nat) - 1) / 2,
        to < from ==> field_val(s, from, to) == 0,
    decreases to - from + 1,
{
    if from <= to {
        lemma_field_range(s, from, to - 1);
        lemma_pow3_odd((to - from) as nat);
        lemma_pow3_pos((to - from) as nat);
        if to == from {
            assert(pow3(1) == 3) by {
                reveal_with_fuel(pow3, 2);
            }
        }
    }
}

/// Fixed-width trit register with MSB-first field accessors.
#[derive(Clone, Copy, Debug)]
pub struct TritWord<const N: usize> {
    pub trits: [Trit; N],
}

impl<const N: usize> TritWord<N> {
    /// Value of the field `trits[from..=to]`.
    pub open spec fn field(self, from: int, to: int) -> int {
        field_val(self.trits@, from, to)
    }

    pub fn zero() -> (r: Self)
        ensures
            forall|i: int| 0 <= i < N ==> r.trits[i] == Trit::Z,
    {
        TritWord { trits: [Trit::Z; N] }
    }
}

impl<const N: usize> Default for TritWord<N> {
    /// The all-zero word.
    fn default() -> (r: Self)
        ensures
            forall|i: int| 0 <= i < N ==> r.trits[i] == Trit::Z,
    {
        Self::zero()
    }
}

impl<const N: usize> TritWord<N> {

    /// Balanced value of the inclusive field `trits[from..=to]`,
    /// most significant trit at `from`.
    pub fn field_i32(&self, from: usize, to: usize) -> (r: i32)
        requires
            from <= to < N,
            to - from < 20,
        ensures
            r == self.field(from as int, to as int),
    {
        let mut v: i32 = 0;
        let mut i = from;
        while i <= to
            invariant
                from <= i <= to + 1,
                to < N,
                to - from < 20,
                v == field_val(self.trits@, from as int, i - 1),
            decreases to + 1 - i,
        {
            proof {
                lemma_field_range(self.trits@, from as int, i as int);
                lemma_pow3_mono((i - from + 1) as nat, 20);
                assert(pow3(20) == 3486784401) by {
                    reveal_with_fuel(pow3, 21);
                }
            }
            v = v * 3 + self.trits[i].to_i8() as i32;
            i = i + 1;
        }
        v
    }

    /// Writes a balanced value into the inclusive field `trits[from..=to]`,
    /// most significant trit at `from`. Values outside the field wrap.
    pub fn set_field(&mut self, from: usize, to: usize, value: i32)
        requires
            from <= to < N,
        ensures
            final(self).field(from as int, to as int) == wrap(
                value as int,
                pow3((to - from + 1) as nat),
            ),
            forall|i: int| 0 <= i < N && !(from <= i <= to) ==> final(self).trits[i] == old(
                self,
            ).trits[i],
    {
        let ghost old_trits = self.trits@;
        let mut v: i128 = value as i128;
        let mut i = to + 1;
        while i > from
            invariant
                from <= i <= to + 1,
                to < N,
                value == field_val(self.trits@, i as int, to as int) + v * pow3(
                    (to + 1 - i) as nat,
                ),
                -2147483648 <= v <= 2147483648,
                old_trits.len() == N,
                forall|j: int| 0 <= j < N && !(i <= j <= to) ==> self.trits[j] == old_trits[j],
            decreases i,
        {
            i = i - 1;
            let (d, q) = bal_split(v);
            let ghost before = self.trits@;
            self.trits[i] = d;
            proof {
                lemma_field_frame(before, self.trits@, i + 1, to as int);
                lemma_field_senior(self.trits@, i as int, to as int);
                let p = pow3((to - i) as nat);
                assert(pow3((to + 1 - i) as nat) == 3 * p);
                assert(v * p == d.val() * p + q * (3 * p)) by (nonlinear_arith)
                    requires
                        v == d.val() + 3 * q,
                ;
            }
            v = q;
        }
        proof {
            let n = (to - from + 1) as nat;
            lemma_field_range(self.trits@, from as int, to as int);
            lemma_pow3_odd(n);
            lemma_pow3_pos(n);
            assert(v * pow3(n) == pow3(n) * v) by (nonlinear_arith);
            lemma_wrap_unique(value as int, self.field(from as int, to as int), pow3(n), v as int);
        }
    }

    pub fn trit(&self, i: usize) -> (r: Trit)
        requires
            i < N,
        ensures
            r == self.trits[i as int],
    {
        self.trits[i]
    }

    pub fn set_trit(&mut self, i: usize, t: Trit)
        requires
            i < N,
        ensures
            final(self).trits@ == old(self).trits@.update(i as int, t),
    {
        self.trits[i] = t;
    }
}

pub proof fn lemma_pow3_mono(a: nat, b: nat)
    requires
        a <= b,
    ensures
        pow3(a) <= pow3(b),
    decreases b,
{
    if a < b {
        lemma_pow3_mono(a, (b - 1) as nat);
        lemma_pow3_pos((b - 1) as nat);
    }
}


/// The group of an operational syllable, selected by k3.
#[derive(Clone, Copy, Debug, PartialEq, Eq, Structural)]
pub enum OpGroup {
    /// k3 = −1: second-level operation, dispatch to a subroutine (macro).
    Macro,
    /// k3 = 0: first-level, hardware, any mode.
    Basic,
    /// k3 = +1: first-level, privileged (forbidden in user mode).
    Spec,
}

impl OpGroup {
    pub open spec fn of_trit(t: Trit) -> OpGroup {
        match t {
            Trit::N => OpGroup::Macro,
            Trit::Z => OpGroup::Basic,
            Trit::P => OpGroup::Spec,
        }
    }

    pub fn from_trit(t: Trit) -> (r: Self)
        ensures
            r == OpGroup::of_trit(t),
    {
        match t {
            Trit::N => OpGroup::Macro,
            Trit::Z => OpGroup::Basic,
            Trit::P => OpGroup::Spec,
        }
    }
}

/// Machine mode c1.
#[derive(Clone, Copy, Debug, PartialEq, Eq, Structural)]
pub enum Mode {
    /// c1 = 1: interrupt mode — all ops allowed, interrupts blocked.
    Interrupt,
    /// c1 = 0: macro mode.
    Macro,
    /// c1 = −1: user mode — spec ops forbidden.
    User,
}

impl Mode {
    pub open spec fn of_trit(t: Trit) -> Mode {
        match t {
            Trit::P => Mode::Interrupt,
            Trit::Z => Mode::Macro,
            Trit::N => Mode::User,
        }
    }

    pub open spec fn trit_of(self) -> Trit {
        match self {
            Mode::Interrupt => Trit::P,
            Mode::Macro => Trit::Z,
            Mode::User => Trit::N,
        }
    }

    pub fn from_trit(t: Trit) -> (r: Self)
        ensures
            r == Mode::of_trit(t),
    {
        match t {
            Trit::P => Mode::Interrupt,
            Trit::Z => Mode::Macro,
            Trit::N => Mode::User,
        }
    }

    pub fn to_trit(self) -> (r: Trit)
        ensures
            r == self.trit_of(),
            Mode::of_trit(r) == self,
    {
        match self {
            Mode::Interrupt => Trit::P,
            Mode::Macro => Trit::Z,
            Mode::User => Trit::N,
        }
    }
}

/// Interrupt causes w.
#[derive(Clone, Copy, Debug, PartialEq, Eq, Structural)]
pub enum InterruptCause {
    Clock,
    IoGroupMinus1,
    IoGroup0,
    IoGroupPlus1,
    Level2Minus1,
    Level2Zero,
    Level2Plus1,
    PanelButton,
    /// ca overflow, v[9].
    PageExhausted,
    /// pa = −13 on pop.
    StackExhausted,
    /// pa = 13 on push.
    StackOverflow,
    /// ka + k1 overflow.
    OperandCrossPage,
    ForbiddenSyllable,
}

impl InterruptCause {
    /// The cause number written to w (−40..=−28).
    pub open spec fn spec_value(self) -> int {
        match self {
            InterruptCause::Clock => -40,
            InterruptCause::IoGroupMinus1 => -39,
            InterruptCause::IoGroup0 => -38,
            InterruptCause::IoGroupPlus1 => -37,
            InterruptCause::Level2Minus1 => -36,
            InterruptCause::Level2Zero => -35,
            InterruptCause::Level2Plus1 => -34,
            InterruptCause::PanelButton => -33,
            InterruptCause::PageExhausted => -32,
            InterruptCause::StackExhausted => -31,
            InterruptCause::StackOverflow => -30,
            InterruptCause::OperandCrossPage => -29,
            InterruptCause::ForbiddenSyllable => -28,
        }
    }

    /// The cause number written to w (−40..=−28).
    pub fn value(self) -> (r: i8)
        ensures
            r == self.spec_value(),
    {
        match self {
            InterruptCause::Clock => -40,
            InterruptCause::IoGroupMinus1 => -39,
            InterruptCause::IoGroup0 => -38,
            InterruptCause::IoGroupPlus1 => -37,
            InterruptCause::Level2Minus1 => -36,
            InterruptCause::Level2Zero => -35,
            InterruptCause::Level2Plus1 => -34,
            InterruptCause::PanelButton => -33,
            InterruptCause::PageExhausted => -32,
            InterruptCause::StackExhausted => -31,
            InterruptCause::StackOverflow => -30,
            InterruptCause::OperandCrossPage => -29,
            InterruptCause::ForbiddenSyllable => -28,
        }
    }

    /// The cause with number `v` among the polled requests −40..=−32.
    pub open spec fn of_value(v: int) -> InterruptCause {
        if v == -40 {
            InterruptCause::Clock
        } else if v == -39 {
            InterruptCause::IoGroupMinus1
        } else if v == -38 {
            InterruptCause::IoGroup0
        } else if v == -37 {
            InterruptCause::IoGroupPlus1
        } else if v == -36 {
            InterruptCause::Level2Minus1
        } else if v == -35 {
            InterruptCause::Level2Zero
        } else if v == -34 {
            InterruptCause::Level2Plus1
        } else if v == -33 {
            InterruptCause::PanelButton
        } else {
            InterruptCause::PageExhausted
        }
    }

    /// Maps a polled `v`-request value (−40..=−32) to its cause.
    /// Causes −31..=−28 are raised directly by operations, not polled.
    pub fn from_value(v: i8) -> (r: Option<InterruptCause>)
        ensures
            r is Some <==> -40 <= v <= -32,
            r matches Some(c) ==> c.spec_value() == v && c == InterruptCause::of_value(v as int),
    {
        match v {
            -40 => Some(InterruptCause::Clock),
            -39 => Some(InterruptCause::IoGroupMinus1),
            -38 => Some(InterruptCause::IoGroup0),
            -37 => Some(InterruptCause::IoGroupPlus1),
            -36 => Some(InterruptCause::Level2Minus1),
            -35 => Some(InterruptCause::Level2Zero),
            -34 => Some(InterruptCause::Level2Plus1),
            -33 => Some(InterruptCause::PanelButton),
            -32 => Some(InterruptCause::PageExhausted),
            _ => None,
        }
    }
}

/// Processor register file.
///
/// `c[0]` = c1 (mode), `c[1..4]` = ch (program page), `c[4..8]` = ca
/// (syllable address), `c[8..20]` and `c[20..32]` = macro/interrupt save
/// areas; `p[0..2]` = ph (stack page), `p[2..5]` = pa (window position),
/// `p[5..10]` = save area; `k` = the executing syllable; `v[0..9]` =
/// interrupt requests; `h[−1..1]` = operand page registers; `q`, `g`, `u`,
/// `a` = level-2 and I/O group registers; `start` = P while running.
#[derive(Clone, Copy, Debug)]
pub struct Registers {
    pub c: TritWord<32>,
    pub p: TritWord<10>,
    /// R — multiplier register.
    pub r: Word,
    /// Y — lower product register.
    pub y: Word,
    pub v: TritWord<9>,
    /// e — small accumulator.
    pub e: Tryte,
    pub k: TritWord<6>,
    pub w: TritWord<4>,
    pub hf: TritWord<3>,
    pub h: [TritWord<3>; 3],
    pub q: [TritWord<8>; 3],
    pub g: [TritWord<7>; 3],
    pub u: [TritWord<4>; 3],
    pub a: [Trit; 3],
    pub start: Trit,
}

impl Registers {
    pub open spec fn spec_mode(self) -> Mode {
        Mode::of_trit(self.c.trits[0])
    }

    pub open spec fn spec_ch(self) -> int {
        self.c.field(1, 3)
    }

    pub open spec fn spec_ca(self) -> int {
        self.c.field(4, 7)
    }

    pub open spec fn spec_ph(self) -> int {
        self.p.field(0, 1)
    }

    pub open spec fn spec_pa(self) -> int {
        self.p.field(2, 4)
    }

    pub open spec fn spec_ka(self) -> int {
        self.k.field(2, 5)
    }

    pub open spec fn spec_ko(self) -> int {
        self.k.field(3, 5)
    }

    pub open spec fn spec_w(self) -> int {
        self.w.field(0, 3)
    }

    pub open spec fn spec_h(self, k2: Trit) -> int {
        self.h[k2.val() + 1].field(0, 2)
    }

    pub open spec fn spec_is_op(self) -> bool {
        self.k.trits[0] == Trit::Z && self.k.trits[1] == Trit::Z
    }

    /// Ranges of the register fields.
    pub proof fn lemma_ranges(self)
        ensures
            -13 <= self.spec_ch() <= 13,
            -40 <= self.spec_ca() <= 40,
            -4 <= self.spec_ph() <= 4,
            -13 <= self.spec_pa() <= 13,
            -40 <= self.spec_ka() <= 40,
            -13 <= self.spec_ko() <= 13,
            -40 <= self.spec_w() <= 40,
            forall|i: int| 0 <= i < 3 ==> -13 <= #[trigger] self.h[i].field(0, 2) <= 13,
    {
        lemma_field_range(self.c.trits@, 1, 3);
        lemma_field_range(self.c.trits@, 4, 7);
        lemma_field_range(self.p.trits@, 0, 1);
        lemma_field_range(self.p.trits@, 2, 4);
        lemma_field_range(self.k.trits@, 2, 5);
        lemma_field_range(self.k.trits@, 3, 5);
        lemma_field_range(self.w.trits@, 0, 3);
        assert(pow3(2) == 9 && pow3(3) == 27 && pow3(4) == 81) by {
            reveal_with_fuel(pow3, 5);
        }
        assert forall|i: int| 0 <= i < 3 implies -13 <= #[trigger] self.h[i].field(0, 2) <= 13 by {
            lemma_field_range(self.h[i].trits@, 0, 2);
        }
    }

    /// Every register trit is zero and start = Z.
    pub open spec fn is_zeroed(self) -> bool {
        let r = self;
        &&& forall|i: int| 0 <= i < 32 ==> r.c.trits[i] == Trit::Z
        &&& forall|i: int| 0 <= i < 10 ==> r.p.trits[i] == Trit::Z
        &&& forall|i: int| 0 <= i < 9 ==> r.v.trits[i] == Trit::Z
        &&& forall|i: int| 0 <= i < 6 ==> r.k.trits[i] == Trit::Z
        &&& forall|i: int| 0 <= i < 4 ==> r.w.trits[i] == Trit::Z
        &&& forall|i: int| 0 <= i < 3 ==> r.hf.trits[i] == Trit::Z
        &&& forall|i: int, j: int| 0 <= i < 3 && 0 <= j < 3 ==> r.h[i].trits[j] == Trit::Z
        &&& forall|i: int, j: int| 0 <= i < 3 && 0 <= j < 8 ==> r.q[i].trits[j] == Trit::Z
        &&& forall|i: int, j: int| 0 <= i < 3 && 0 <= j < 7 ==> r.g[i].trits[j] == Trit::Z
        &&& forall|i: int, j: int| 0 <= i < 3 && 0 <= j < 4 ==> r.u[i].trits[j] == Trit::Z
        &&& forall|i: int| 0 <= i < 3 ==> r.a[i] == Trit::Z
        &&& r.r.is_zero()
        &&& r.y.is_zero()
        &&& r.e.is_zero()
        &&& r.start == Trit::Z
    }

    pub fn zeroed() -> (r: Self)
        ensures
            r.is_zeroed(),
            forall|i: int| 0 <= i < 32 ==> r.c.trits[i] == Trit::Z,
            forall|i: int| 0 <= i < 10 ==> r.p.trits[i] == Trit::Z,
            forall|i: int| 0 <= i < 9 ==> r.v.trits[i] == Trit::Z,
            forall|i: int| 0 <= i < 6 ==> r.k.trits[i] == Trit::Z,
            forall|i: int| 0 <= i < 4 ==> r.w.trits[i] == Trit::Z,
            forall|i: int| 0 <= i < 3 ==> r.hf.trits[i] == Trit::Z,
            forall|i: int, j: int| 0 <= i < 3 && 0 <= j < 3 ==> r.h[i].trits[j] == Trit::Z,
            forall|i: int, j: int| 0 <= i < 3 && 0 <= j < 8 ==> r.q[i].trits[j] == Trit::Z,
            forall|i: int, j: int| 0 <= i < 3 && 0 <= j < 7 ==> r.g[i].trits[j] == Trit::Z,
            forall|i: int, j: int| 0 <= i < 3 && 0 <= j < 4 ==> r.u[i].trits[j] == Trit::Z,
            forall|i: int| 0 <= i < 3 ==> r.a[i] == Trit::Z,
            r.r.is_zero(),
            r.y.is_zero(),
            r.e.is_zero(),
            r.start == Trit::Z,
    {
        let h = TritWord::<3>::zero();
        let q = TritWord::<8>::zero();
        let g = TritWord::<7>::zero();
        let u = TritWord::<4>::zero();
        Registers {
            c: TritWord::zero(),
            p: TritWord::zero(),
            r: Word::zero(),
            y: Word::zero(),
            v: TritWord::zero(),
            e: Tryte::zero(),
            k: TritWord::zero(),
            w: TritWord::zero(),
            hf: TritWord::zero(),
            h: [h, h, h],
            q: [q, q, q],
            g: [g, g, g],
            u: [u, u, u],
            a: [Trit::Z, Trit::Z, Trit::Z],
            start: Trit::Z,
        }
    }

    // --- c: mode and program pointer ---
    pub fn mode(&self) -> (r: Mode)
        ensures
            r == self.spec_mode(),
    {
        Mode::from_trit(self.c.trits[0])
    }

    pub fn set_mode(&mut self, m: Mode)
        ensures
            final(self).c.trits@ == old(self).c.trits@.update(0, m.trit_of()),
            final(self).spec_mode() == m,
            *final(self) == (Registers { c: final(self).c, ..*old(self) }),
    {
        self.c.trits[0] = m.to_trit();
    }

    /// ch — page of the executing program (3 trits, −13..=13).
    pub fn ch(&self) -> (r: i8)
        ensures
            r == self.spec_ch(),
    {
        proof {
            self.lemma_ranges();
        }
        self.c.field_i32(1, 3) as i8
    }

    pub fn set_ch(&mut self, v: i8)
        ensures
            final(self).spec_ch() == wrap(v as int, 27),
            forall|i: int| 0 <= i < 32 && !(1 <= i <= 3) ==> final(self).c.trits[i] == old(
                self,
            ).c.trits[i],
            *final(self) == (Registers { c: final(self).c, ..*old(self) }),
    {
        self.c.set_field(1, 3, v as i32);
        proof {
            assert(pow3(3) == 27) by {
                reveal_with_fuel(pow3, 4);
            }
        }
    }

    /// ca — address of the executing syllable (4 trits, −40..=40).
    pub fn ca(&self) -> (r: i8)
        ensures
            r == self.spec_ca(),
    {
        proof {
            self.lemma_ranges();
        }
        self.c.field_i32(4, 7) as i8
    }

    pub fn set_ca(&mut self, v: i8)
        ensures
            final(self).spec_ca() == wrap(v as int, 81),
            forall|i: int| 0 <= i < 32 && !(4 <= i <= 7) ==> final(self).c.trits[i] == old(
                self,
            ).c.trits[i],
            *final(self) == (Registers { c: final(self).c, ..*old(self) }),
    {
        self.c.set_field(4, 7, v as i32);
        proof {
            assert(pow3(4) == 81) by {
                reveal_with_fuel(pow3, 5);
            }
        }
    }

    // --- p: stack pointer ---
    /// ph — RAM page occupied by the stack (2 trits, −4..=4).
    pub fn ph(&self) -> (r: i8)
        ensures
            r == self.spec_ph(),
    {
        proof {
            self.lemma_ranges();
        }
        self.p.field_i32(0, 1) as i8
    }

    pub fn set_ph(&mut self, v: i8)
        ensures
            final(self).spec_ph() == wrap(v as int, 9),
            forall|i: int| 0 <= i < 10 && !(0 <= i <= 1) ==> final(self).p.trits[i] == old(
                self,
            ).p.trits[i],
            *final(self) == (Registers { p: final(self).p, ..*old(self) }),
    {
        self.p.set_field(0, 1, v as i32);
        proof {
            assert(pow3(2) == 9) by {
                reveal_with_fuel(pow3, 3);
            }
        }
    }

    /// pa — window position within the stack page (3 trits, −13..=13).
    pub fn pa(&self) -> (r: i8)
        ensures
            r == self.spec_pa(),
    {
        proof {
            self.lemma_ranges();
        }
        self.p.field_i32(2, 4) as i8
    }

    pub fn set_pa(&mut self, v: i8)
        ensures
            final(self).spec_pa() == wrap(v as int, 27),
            forall|i: int| 0 <= i < 10 && !(2 <= i <= 4) ==> final(self).p.trits[i] == old(
                self,
            ).p.trits[i],
            *final(self) == (Registers { p: final(self).p, ..*old(self) }),
    {
        self.p.set_field(2, 4, v as i32);
        proof {
            assert(pow3(3) == 27) by {
                reveal_with_fuel(pow3, 4);
            }
        }
    }

    // --- k: the executing syllable ---
    pub fn set_k(&mut self, syllable: &Tryte)
        ensures
            final(self).k.trits == syllable.trits,
            *final(self) == (Registers { k: final(self).k, ..*old(self) }),
    {
        self.k.trits = syllable.trits;
    }

    /// k1 — operand length selector (address syllables).
    pub fn k1(&self) -> (r: Trit)
        ensures
            r == self.k.trits[0],
    {
        self.k.trits[0]
    }

    /// k2 — selector of the operand-page register h[k2].
    pub fn k2(&self) -> (r: Trit)
        ensures
            r == self.k.trits[1],
    {
        self.k.trits[1]
    }

    /// k3 — op group selector / senior address trit.
    pub fn k3(&self) -> (r: Trit)
        ensures
            r == self.k.trits[2],
    {
        self.k.trits[2]
    }

    /// ka — operand address (4 trits, −40..=40).
    pub fn ka(&self) -> (r: i8)
        ensures
            r == self.spec_ka(),
    {
        proof {
            self.lemma_ranges();
        }
        self.k.field_i32(2, 5) as i8
    }

    /// ko — operation code (3 trits, −13..=13).
    pub fn ko(&self) -> (r: i8)
        ensures
            r == self.spec_ko(),
    {
        proof {
            self.lemma_ranges();
        }
        self.k.field_i32(3, 5) as i8
    }

    /// Alias of `ko`.
    pub fn op_code(&self) -> (r: i8)
        ensures
            r == self.spec_ko(),
    {
        self.ko()
    }

    /// Operational syllable test: k1 = 0 and k2 = 0.
    pub fn is_op_syllable(&self) -> (r: bool)
        ensures
            r == self.spec_is_op(),
    {
        self.k1() == Trit::Z && self.k2() == Trit::Z
    }

    pub fn op_group(&self) -> (r: OpGroup)
        ensures
            r == OpGroup::of_trit(self.k.trits[2]),
    {
        OpGroup::from_trit(self.k3())
    }

    /// Records the interrupt cause in w.
    pub fn set_w(&mut self, cause: InterruptCause)
        ensures
            final(self).spec_w() == cause.spec_value(),
            *final(self) == (Registers { w: final(self).w, ..*old(self) }),
    {
        self.w.set_field(0, 3, cause.value() as i32);
        proof {
            assert(pow3(4) == 81) by {
                reveal_with_fuel(pow3, 5);
            }
            crate::arith::lemma_wrap_small(cause.spec_value(), 81);
        }
    }

    /// The recorded interrupt cause.
    pub fn w_value(&self) -> (r: i8)
        ensures
            r == self.spec_w(),
    {
        proof {
            self.lemma_ranges();
        }
        self.w.field_i32(0, 3) as i8
    }

    /// h[k2] — the operand page selected by a k2 trit.
    pub fn h(&self, k2: Trit) -> (r: i8)
        ensures
            r == self.spec_h(k2),
    {
        proof {
            self.lemma_ranges();
        }
        let i = (k2.to_i8() + 1) as usize;
        self.h[i].field_i32(0, 2) as i8
    }

    pub fn set_h(&mut self, k2: Trit, page: i8)
        ensures
            final(self).spec_h(k2) == wrap(page as int, 27),
            forall|i: int| 0 <= i < 3 && i != k2.val() + 1 ==> final(self).h[i] == old(self).h[i],
            *final(self) == (Registers { h: final(self).h, ..*old(self) }),
    {
        let i = (k2.to_i8() + 1) as usize;
        let mut x = self.h[i];
        x.set_field(0, 2, page as i32);
        self.h[i] = x;
        proof {
            assert(pow3(3) == 27) by {
                reveal_with_fuel(pow3, 4);
            }
        }
    }
}

/// Each polled interrupt cause (numbers −40..=−32) is the cause of its
/// own number; every cause numbers in −40..=−28.
pub proof fn law_cause_roundtrip(c: InterruptCause)
    ensures
        -40 <= c.spec_value() <= -28,
        c.spec_value() <= -32 ==> InterruptCause::of_value(c.spec_value()) == c,
{
}

/// A value within the range of a field of `n` trits is stored in it
/// exactly (fields hold values modulo 3^n).
pub proof fn law_field_holds_small(v: int, n: nat)
    requires
        -(pow3(n) - 1) / 2 <= v <= (pow3(n) - 1) / 2,
    ensures
        wrap(v, pow3(n)) == v,
{
    lemma_pow3_pos(n);
    lemma_pow3_odd(n);
    crate::arith::lemma_wrap_small(v, pow3(n));
}

} // verus!
