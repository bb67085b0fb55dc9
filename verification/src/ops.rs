//! Operation executors of the table-driven VM: the basic group (of which
//! YFT, Y=T, S−T, TDN and S+T act on the stack and registers), and the
//! system and macro groups (named only). Each executor also gives the
//! listing name of an operation number.

use vstd::prelude::*;
use crate::arith::wrap;
use crate::vm::{VM, pop_stack, top_value, val_index_spec};

verus! {

/// The top value of `stack`, 0 when there is none.
pub open spec fn top_or_zero(stack: Seq<usize>, values: Seq<crate::vm::AnValue>) -> i16 {
    match top_value(stack, values) {
        Some(x) => x,
        None => 0,
    }
}

/// The stack after popping two values `a` (the top, T) and `b` (below it,
/// S) and pushing S + T or S − T wrapped into the syllable range.
pub open spec fn binary_result(o: VM, sub: bool) -> Seq<usize> {
    let a = top_or_zero(o.stack@, o.values@);
    let s1 = pop_stack(o.stack@);
    let b = top_or_zero(s1, o.values@);
    let s2 = pop_stack(s1);
    let v = if sub { b - a } else { b + a };
    s2.push(val_index_spec(wrap(v, 729) as i16))
}

/// Name of basic operation `ko` in the listing ("UNKNOWN" past the table).
pub open spec fn basic_name(ko: int) -> Seq<char> {
    if ko == 0 {
        "LST"@
    } else if ko == 1 {
        "COT"@
    } else if ko == 2 {
        "XNN"@
    } else if ko == 3 {
        "DOW"@
    } else if ko == 4 {
        "BRT"@
    } else if ko == 5 {
        "JMP"@
    } else if ko == 6 {
        "T-E"@
    } else if ko == 7 {
        "E=T"@
    } else if ko == 8 {
        "T+E"@
    } else if ko == 9 {
        "CLT"@
    } else if ko == 10 {
        "CET"@
    } else if ko == 11 {
        "CGT"@
    } else if ko == 12 {
        "JSR"@
    } else if ko == 13 {
        "R=T"@
    } else if ko == 14 {
        "C=T"@
    } else if ko == 15 {
        "T=W"@
    } else if ko == 16 {
        "YFT"@
    } else if ko == 17 {
        "W=S"@
    } else if ko == 18 {
        "SMT"@
    } else if ko == 19 {
        "Y=T"@
    } else if ko == 20 {
        "SAT"@
    } else if ko == 21 {
        "S-T"@
    } else if ko == 22 {
        "TDN"@
    } else if ko == 23 {
        "S+T"@
    } else if ko == 24 {
        "LBT"@
    } else if ko == 25 {
        "L*T"@
    } else if ko == 26 {
        "LHT"@
    } else {
        "UNKNOWN"@
    }
}

/// Name of system operation `ko` in the listing ("UNKNOWN" past the table).
pub open spec fn system_name(ko: int) -> Seq<char> {
    if ko == 0 {
        "COPYG1"@
    } else if ko == 1 {
        "COPYG2"@
    } else if ko == 2 {
        "COPYG3"@
    } else if ko == 3 {
        "COPYF1"@
    } else if ko == 4 {
        "COPYF2"@
    } else if ko == 5 {
        "COPYF3"@
    } else if ko == 6 {
        "LOADQ1"@
    } else if ko == 7 {
        "LOADQ2"@
    } else if ko == 8 {
        "LOADQ3"@
    } else if ko == 9 {
        "COPYP"@
    } else if ko == 10 {
        "EXCHP"@
    } else if ko == 11 {
        "LOADP"@
    } else if ko == 12 {
        "COPYMC"@
    } else if ko == 13 {
        "RETNMC"@
    } else if ko == 14 {
        "LOADMC"@
    } else if ko == 15 {
        "LOADH1"@
    } else if ko == 16 {
        "LOADH2"@
    } else if ko == 17 {
        "LOADH3"@
    } else if ko == 18 {
        "LOADU1"@
    } else if ko == 19 {
        "LOADU2"@
    } else if ko == 20 {
        "LOADU3"@
    } else if ko == 21 {
        "LOADF1"@
    } else if ko == 22 {
        "LOADF2"@
    } else if ko == 23 {
        "LOADF3"@
    } else if ko == 24 {
        "LOADG1"@
    } else if ko == 25 {
        "LOADG2"@
    } else if ko == 26 {
        "LOADG3"@
    } else {
        "UNKNOWN"@
    }
}

/// Name of macro operation `ko` in the listing ("UNKNOWN" past the table).
pub open spec fn macro_name(ko: int) -> Seq<char> {
    if ko == 0 {
        "MACRO 1"@
    } else if ko == 1 {
        "MACRO 2"@
    } else if ko == 2 {
        "MACRO 3"@
    } else if ko == 3 {
        "MACRO 4"@
    } else if ko == 4 {
        "MACRO 5"@
    } else if ko == 5 {
        "MACRO 6"@
    } else if ko == 6 {
        "MACRO 7"@
    } else if ko == 7 {
        "MACRO 8"@
    } else if ko == 8 {
        "MACRO 9"@
    } else if ko == 9 {
        "MACRO 10"@
    } else if ko == 10 {
        "MACRO 11"@
    } else if ko == 11 {
        "MACRO 12"@
    } else if ko == 12 {
        "MACRO 13"@
    } else if ko == 13 {
        "MACRO 14"@
    } else if ko == 14 {
        "MACRO 15"@
    } else if ko == 15 {
        "MACRO 16"@
    } else if ko == 16 {
        "MACRO 17"@
    } else if ko == 17 {
        "MACRO 18"@
    } else if ko == 18 {
        "MACRO 19"@
    } else if ko == 19 {
        "MACRO 20"@
    } else if ko == 20 {
        "MACRO 21"@
    } else if ko == 21 {
        "MACRO 22"@
    } else if ko == 22 {
        "MACRO 23"@
    } else if ko == 23 {
        "MACRO 24"@
    } else if ko == 24 {
        "MACRO 25"@
    } else if ko == 25 {
        "MACRO 26"@
    } else if ko == 26 {
        "MACRO 27"@
    } else {
        "UNKNOWN"@
    }
}

/// Basic operations.
pub struct BasicOpExecutor;

impl BasicOpExecutor {
    /// What basic operation `ko` does to the VM `o`, giving `n`: YFT (16)
    /// resets Y to the index of 0, Y=T (19) pops T into Y, S−T (21) and S+T
    /// (23) replace S and T by S − T and S + T, TDN (22) negates T; the
    /// others, W=S (17) among them, change nothing.
    pub open spec fn effect(o: VM, ko: int, n: VM) -> bool {
        if ko == 16 {
            n == (VM { reg_y: 364, ..o })
        } else if ko == 19 {
            &&& n == (VM {
                stack: n.stack,
                reg_y: match top_value(o.stack@, o.values@) {
                    Some(x) => val_index_spec(x),
                    None => o.reg_y,
                },
                ..o
            })
            &&& n.stack@ == pop_stack(o.stack@)
        } else if ko == 21 || ko == 23 {
            &&& n == (VM { stack: n.stack, ..o })
            &&& n.stack@ == binary_result(o, ko == 21)
        } else if ko == 22 {
            &&& n == (VM { stack: n.stack, ..o })
            &&& n.stack@ == match top_value(o.stack@, o.values@) {
                Some(x) => pop_stack(o.stack@).push(val_index_spec((-x) as i16)),
                None => pop_stack(o.stack@),
            }
        } else {
            n == o
        }
    }

    /// Runs basic operation `ko` (the others are not implemented and
    /// change nothing).
    pub fn exec(vm: &mut VM, ko: usize) -> (r: Result<(), ()>)
        requires
            ko == 22 ==> top_value(old(vm).stack@, old(vm).values@) != Some(i16::MIN),
        ensures
            r is Ok,
            Self::effect(*old(vm), ko as int, *final(vm)),
    {
        if ko == 16 {
            Self::op_yft(vm);
        } else if ko == 19 {
            Self::op_y_setto_t(vm);
        } else if ko == 21 {
            Self::op_s_sub_t(vm);
        } else if ko == 22 {
            Self::op_tdn(vm);
        } else if ko == 23 {
            Self::op_s_add_t(vm);
        }
        Ok(())
    }

    pub fn name(ko: usize) -> (r: &'static str)
        ensures
            r@ == basic_name(ko as int),
    {
        match ko {
            0 => "LST",
            1 => "COT",
            2 => "XNN",
            3 => "DOW",
            4 => "BRT",
            5 => "JMP",
            6 => "T-E",
            7 => "E=T",
            8 => "T+E",
            9 => "CLT",
            10 => "CET",
            11 => "CGT",
            12 => "JSR",
            13 => "R=T",
            14 => "C=T",
            15 => "T=W",
            16 => "YFT",
            17 => "W=S",
            18 => "SMT",
            19 => "Y=T",
            20 => "SAT",
            21 => "S-T",
            22 => "TDN",
            23 => "S+T",
            24 => "LBT",
            25 => "L*T",
            26 => "LHT",
            _ => "UNKNOWN",
        }
    }

    fn op_yft(vm: &mut VM)
        ensures
            *final(vm) == (VM { reg_y: 364, ..*old(vm) }),
    {
        vm.reg_y = VM::val_index(0);
    }

    fn op_y_setto_t(vm: &mut VM)
        ensures
            Self::effect(*old(vm), 19, *final(vm)),
    {
        if let Some(top) = vm.pop() {
            let idx = VM::val_index(top.val_binary);
            vm.reg_y = idx;
        }
    }

    fn op_s_sub_t(vm: &mut VM)
        ensures
            Self::effect(*old(vm), 21, *final(vm)),
    {
        let a = match vm.pop() {
            Some(v) => v.val_binary,
            None => 0,
        };
        let b = match vm.pop() {
            Some(v) => v.val_binary,
            None => 0,
        };
        let result = VM::wrap_value(b as i32 - a as i32);
        vm.push(result);
    }

    fn op_tdn(vm: &mut VM)
        requires
            top_value(old(vm).stack@, old(vm).values@) != Some(i16::MIN),
        ensures
            Self::effect(*old(vm), 22, *final(vm)),
    {
        if let Some(top) = vm.pop() {
            let temp = -top.val_binary;
            vm.push(temp);
        }
    }

    fn op_s_add_t(vm: &mut VM)
        ensures
            Self::effect(*old(vm), 23, *final(vm)),
    {
        let a = match vm.pop() {
            Some(v) => v.val_binary,
            None => 0,
        };
        let b = match vm.pop() {
            Some(v) => v.val_binary,
            None => 0,
        };
        let result = VM::wrap_value(a as i32 + b as i32);
        vm.push(result);
    }
}

/// System operations (named only).
pub struct SystemOpExecutor;

impl SystemOpExecutor {
    /// Runs system operation `ko`: nothing changes.
    pub fn exec(_vm: &mut VM, ko: usize) -> (r: Result<(), ()>)
        ensures
            r is Ok,
            *final(_vm) == *old(_vm),
    {
        Ok(())
    }

    pub fn name(ko: usize) -> (r: &'static str)
        ensures
            r@ == system_name(ko as int),
    {
        match ko {
            0 => "COPYG1",
            1 => "COPYG2",
            2 => "COPYG3",
            3 => "COPYF1",
            4 => "COPYF2",
            5 => "COPYF3",
            6 => "LOADQ1",
            7 => "LOADQ2",
            8 => "LOADQ3",
            9 => "COPYP",
            10 => "EXCHP",
            11 => "LOADP",
            12 => "COPYMC",
            13 => "RETNMC",
            14 => "LOADMC",
            15 => "LOADH1",
            16 => "LOADH2",
            17 => "LOADH3",
            18 => "LOADU1",
            19 => "LOADU2",
            20 => "LOADU3",
            21 => "LOADF1",
            22 => "LOADF2",
            23 => "LOADF3",
            24 => "LOADG1",
            25 => "LOADG2",
            26 => "LOADG3",
            _ => "UNKNOWN",
        }
    }
}

/// Macro operations (named only).
pub struct MacroOpExecutor;

impl MacroOpExecutor {
    /// Runs macro operation `ko`: nothing changes.
    pub fn exec(_vm: &mut VM, ko: usize) -> (r: Result<(), ()>)
        ensures
            r is Ok,
            *final(_vm) == *old(_vm),
    {
        Ok(())
    }

    pub fn name(ko: usize) -> (r: &'static str)
        ensures
            r@ == macro_name(ko as int),
    {
        match ko {
            0 => "MACRO 1",
            1 => "MACRO 2",
            2 => "MACRO 3",
            3 => "MACRO 4",
            4 => "MACRO 5",
            5 => "MACRO 6",
            6 => "MACRO 7",
            7 => "MACRO 8",
            8 => "MACRO 9",
            9 => "MACRO 10",
            10 => "MACRO 11",
            11 => "MACRO 12",
            12 => "MACRO 13",
            13 => "MACRO 14",
            14 => "MACRO 15",
            15 => "MACRO 16",
            16 => "MACRO 17",
            17 => "MACRO 18",
            18 => "MACRO 19",
            19 => "MACRO 20",
            20 => "MACRO 21",
            21 => "MACRO 22",
            22 => "MACRO 23",
            23 => "MACRO 24",
            24 => "MACRO 25",
            25 => "MACRO 26",
            26 => "MACRO 27",
            _ => "UNKNOWN",
        }
    }
}

/// The group tag and the name under which operation `ko` of the group
/// `opcode` (0 basic, 1 system, 2 macro) is reported; `None` for another
/// opcode (an undefined operation).
pub fn operation_label(opcode: u8, ko: usize) -> (r: Option<(&'static str, &'static str)>)
    ensures
        opcode == 0 ==> (r matches Some((tag, name)) && tag@ == "BASIC"@ && name@ == basic_name(ko as int)),
        opcode == 1 ==> (r matches Some((tag, name)) && tag@ == "SYSTEM"@ && name@ == system_name(ko as int)),
        opcode == 2 ==> (r matches Some((tag, name)) && tag@ == "MACRO"@ && name@ == macro_name(ko as int)),
        opcode > 2 ==> r is None,
{
    if opcode == 0 {
        Some(("BASIC", BasicOpExecutor::name(ko)))
    } else if opcode == 1 {
        Some(("SYSTEM", SystemOpExecutor::name(ko)))
    } else if opcode == 2 {
        Some(("MACRO", MacroOpExecutor::name(ko)))
    } else {
        None
    }
}

/// S+T on a VM whose table is whole leaves on top the sum of the two
/// values it popped, wrapped into the syllable range; S−T leaves their
/// difference S − T (the value below minus the top).
pub proof fn law_add_sub_top(o: VM, n: VM, ko: int)
    requires
        o.table_ok(),
        ko == 21 || ko == 23,
        BasicOpExecutor::effect(o, ko, n),
    ensures
        ({
            let a = top_or_zero(o.stack@, o.values@);
            let b = top_or_zero(pop_stack(o.stack@), o.values@);
            top_value(n.stack@, n.values@) == Some(
                (if ko == 23 { wrap(b + a, 729) } else { wrap(b - a, 729) }) as i16,
            )
        }),
{
    let a = top_or_zero(o.stack@, o.values@);
    let b = top_or_zero(pop_stack(o.stack@), o.values@);
    let w = if ko == 23 { wrap(b + a, 729) } else { wrap(b - a, 729) };
    crate::arith::lemma_wrap_props(if ko == 23 { b + a } else { b - a }, 729);
    crate::vm::law_push_then_top(o, w as i16);
    let s2 = pop_stack(pop_stack(o.stack@));
    assert(n.values == o.values);
    assert(n.stack@ == s2.push(val_index_spec(w as i16)));
    assert(n.stack@.last() == w + 364);
    assert(o.values@[w + 364]@ == crate::vm::table_entry(w));
}

} // verus!
