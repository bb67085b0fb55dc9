//! Resident programs of the demonstrations: the sum demo on ROM page 12
//! and the teletype echo (its page-0 program and its ROM page 13).

use vstd::prelude::*;
use crate::assembler::{op_tryte, op_value, ref_tryte, ref_value};
use crate::loader::values_of;
use crate::machine::Machine;
use crate::memory::Page;
use crate::registers::Mode;
use crate::trit::Trit;
use crate::tryte::Tryte;

verus! {

/// Cell `a` of the demo image (ROM page 12): data 6 and 7 at 10 and 11,
/// the store target `Ref1 h[-]@20` at 12, and the program
/// `Ref1 h[0]@10, Ref1 h[0]@11, S+T, Ref1 h[0]@12, W=S, MACRO @-27` from
/// −40 on; zero elsewhere.
pub open spec fn demo_cell(a: int) -> int {
    if a == 10 {
        6
    } else if a == 11 {
        7
    } else if a == 12 {
        ref_value(1, -1, 20)
    } else if a == -40 {
        ref_value(1, 0, 10)
    } else if a == -39 {
        ref_value(1, 0, 11)
    } else if a == -38 {
        op_value(0, 10)
    } else if a == -37 {
        ref_value(1, 0, 12)
    } else if a == -36 {
        op_value(0, 4)
    } else if a == -35 {
        op_value(-1, -27)
    } else {
        0
    }
}

/// Cell `a` of the echo image (ROM page 13): the read and write vectors
/// (−30, −20) at −39 and −38, the dispatcher `C=T` at −13, the read
/// handler `EXCHP, COPYG1, LOADG2, Ref1 h[0]@10, RETNMC` from −30 and the
/// write handler `EXCHP, RETNMC` from −20; zero elsewhere.
pub open spec fn echo_cell(a: int) -> int {
    if a == -39 {
        -30
    } else if a == -38 {
        -20
    } else if a == -13 {
        op_value(0, 1)
    } else if a == -30 || a == -20 {
        op_value(1, -3)
    } else if a == -29 {
        op_value(1, -13)
    } else if a == -28 {
        op_value(1, 12)
    } else if a == -27 {
        ref_value(1, 0, 10)
    } else if a == -26 || a == -19 {
        op_value(1, 0)
    } else {
        0
    }
}

/// The echo program on page 0 from −40: `Ref1 h[0]@10, LOADU1, T=C,
/// Ref1 h[0]@13, C=T` (arm the keyboard read once, then idle).
pub open spec fn echo_values() -> Seq<int> {
    seq![ref_value(1, 0, 10), op_value(1, 5), op_value(0, -1), ref_value(1, 0, 13), op_value(0, 1)]
}

fn cell_of(v: i16) -> (r: Tryte)
    requires
        -364 <= v <= 364,
    ensures
        r.value() == v,
{
    proof {
        crate::arith::lemma_wrap_small(v as int, 729);
    }
    Tryte::from_i16(v)
}

/// The demo image for ROM page 12.
pub fn demo_image() -> (r: Page)
    ensures
        forall|a: int| -40 <= a <= 40 ==> #[trigger] r.at(a).value() == demo_cell(a),
{
    let mut img = Page::zeroed();
    let ghost z = img;
    img.syllables[50] = cell_of(6);
    img.syllables[51] = cell_of(7);
    img.syllables[52] = ref_tryte(1, Trit::N, 20);
    img.syllables[0] = ref_tryte(1, Trit::Z, 10);
    img.syllables[1] = ref_tryte(1, Trit::Z, 11);
    img.syllables[2] = op_tryte(Trit::Z, 10);
    img.syllables[3] = ref_tryte(1, Trit::Z, 12);
    img.syllables[4] = op_tryte(Trit::Z, 4);
    img.syllables[5] = op_tryte(Trit::N, -27);
    proof {
        assert forall|a: int| -40 <= a <= 40 implies #[trigger] img.at(a).value() == demo_cell(a) by {
            if demo_cell(a) == 0 && !(a == 10 || a == 11 || a == 12 || -40 <= a <= -35) {
                assert(img.at(a) == z.at(a));
                assert(z.at(a).is_zero());
            }
        }
    }
    img
}

/// The echo image for ROM page 13.
pub fn echo_image() -> (r: Page)
    ensures
        forall|a: int| -40 <= a <= 40 ==> #[trigger] r.at(a).value() == echo_cell(a),
{
    let mut img = Page::zeroed();
    let ghost z = img;
    img.syllables[1] = cell_of(-30);
    img.syllables[2] = cell_of(-20);
    img.syllables[27] = op_tryte(Trit::Z, 1);
    img.syllables[10] = op_tryte(Trit::P, -3);
    img.syllables[11] = op_tryte(Trit::P, -13);
    img.syllables[12] = op_tryte(Trit::P, 12);
    img.syllables[13] = ref_tryte(1, Trit::Z, 10);
    img.syllables[14] = op_tryte(Trit::P, 0);
    img.syllables[20] = op_tryte(Trit::P, -3);
    img.syllables[21] = op_tryte(Trit::P, 0);
    proof {
        assert forall|a: int| -40 <= a <= 40 implies #[trigger] img.at(a).value() == echo_cell(a) by {
            if echo_cell(a) == 0 && !(a == -39 || a == -38 || a == -13 || a == -30 || a == -29 || a == -28
                || a == -27 || a == -26 || a == -20 || a == -19) {
                assert(img.at(a) == z.at(a));
                assert(z.at(a).is_zero());
            }
        }
    }
    img
}

/// The echo program, to be written at page 0 from −40.
pub fn echo_program() -> (r: Vec<Tryte>)
    ensures
        values_of(r@) == echo_values(),
{
    let mut out: Vec<Tryte> = Vec::new();
    out.push(ref_tryte(1, Trit::Z, 10));
    out.push(op_tryte(Trit::P, 5));
    out.push(op_tryte(Trit::Z, -1));
    out.push(ref_tryte(1, Trit::Z, 13));
    out.push(op_tryte(Trit::Z, 1));
    assert(values_of(out@) =~= echo_values());
    out
}

/// A machine set up for the teletype echo: powered on, in macro mode with
/// ch = 0, ca = −40, ph = 1 and h[0] = page 0; group 0 armed for PASS to
/// device 2; page 0 holding the TAKE vector u[−1] = 26 at 10, the idle
/// target −38 at 13 and the echo program from −40 on; ROM page 13 holding
/// the echo image. No device is attached yet.
pub fn echo_machine() -> (m: Machine)
    ensures
        m.wf(),
        m.regs.start == Trit::P,
        m.regs.spec_mode() == Mode::Macro,
        m.regs.spec_ch() == 0,
        m.regs.spec_ca() == -40,
        m.regs.spec_ph() == 1,
        m.regs.spec_h(Trit::Z) == 0,
        m.regs.u[1].trits[0] == Trit::P,
        m.regs.u[1].field(2, 3) == 2,
        m.mem.cell(0, 10).value() == 26,
        m.mem.cell(0, 13).value() == -38,
        forall|i: int| 0 <= i < 5 ==> #[trigger] m.mem.cell(0, -40 + i).value() == echo_values()[i],
        forall|a: int| -40 <= a <= 40 ==> #[trigger] m.mem.cell(13, a).value() == echo_cell(a),
        m.io.keys().len() == 0,
{
    let mut m = Machine::new();
    m.power_on();
    m.regs.set_mode(Mode::Macro);
    m.regs.set_ch(0);
    let ghost c1 = m.regs.c;
    m.regs.set_ca(-40);
    proof {
        crate::arith::lemma_wrap_small(0, 27);
        crate::registers::lemma_field_frame(c1.trits@, m.regs.c.trits@, 1, 3);
    }
    m.regs.set_ph(1);
    m.regs.set_h(Trit::Z, 0);
    let mut u1 = m.regs.u[1];
    u1.set_trit(0, Trit::P);
    u1.set_field(2, 3, 2);
    proof {
        crate::arith::lemma_pow3_small();
        crate::arith::lemma_wrap_small(2, 9);
    }
    m.regs.u[1] = u1;
    let _ = m.mem.write(0, 10, cell_of(26));
    let _ = m.mem.write(0, 13, cell_of(-38));
    let prog = echo_program();
    let ghost r0 = m.regs;
    let ghost d0 = m.mem2;
    assert(prog@.len() == values_of(prog@).len());
    let mut i: usize = 0;
    while i < prog.len()
        invariant
            values_of(prog@) == echo_values(),
            prog@.len() == 5,
            m.regs == r0,
            m.mem2 == d0,
            d0.wf(),
            m.io.keys().len() == 0,
            i <= prog@.len(),
            m.mem.cell(0, 10).value() == 26,
            m.mem.cell(0, 13).value() == -38,
            forall|k: int| 0 <= k < i ==> #[trigger] m.mem.cell(0, -40 + k).value() == echo_values()[k],
        decreases prog@.len() - i,
    {
        let _ = m.mem.write(0, -40 + i as i8, prog[i]);
        proof {
            assert(values_of(prog@)[i as int] == prog@[i as int].value());
        }
        i = i + 1;
    }
    let ghost m1 = m.mem;
    let _ = m.mem.load_rom_page(13, echo_image());
    proof {
        assert(m.mem.page_at(0) == m1.page_at(0));
        assert forall|k: int| 0 <= k < 5 implies #[trigger] m.mem.cell(0, -40 + k).value() == echo_values()[k] by {
            assert(m.mem.cell(0, -40 + k) == m1.cell(0, -40 + k));
        }
    }
    m
}

} // verus!
