//! The table-driven VM of the debugger: every syllable value −364..=364
//! has a precomputed entry (binary, ternary, nonary and decimal texts and
//! flags); the stack and the registers hold indices into that table.

use vstd::prelude::*;
use crate::arith::wrap;
use crate::util::{
    bin_str, dec_str, decimal_string, nonary_str, ternary_str, to_balanced_nonary,
    to_balanced_ternary, to_binary_string,
};
use crate::ops::{BasicOpExecutor, MacroOpExecutor, SystemOpExecutor};

verus! {

pub const VAL_HALF_RANGE: i16 = 364;

pub const VAL_LOW_BOUNDARY: i16 = -364;

pub const VAL_HIGH_BOUNDARY: i16 = 364;

pub const VAL_FULL_RANGE: usize = 729;

pub const PAGE_HALF_RANGE: i32 = 40;

pub const PAGE_FULL_RANGE: usize = 81;

/// One entry of the value table.
pub struct AnValue {
    pub val_binary: i16,
    pub val_trinary: i16,
    pub txt_binary: String,
    pub txt_trinary: String,
    pub txt_nonary: String,
    pub txt_decimal: String,
    pub is_zero: bool,
    pub is_positive: bool,
    pub is_even: bool,
}

/// What an entry holds, with its texts as character sequences.
pub struct AnValueModel {
    pub val_binary: i16,
    pub val_trinary: i16,
    pub txt_binary: Seq<char>,
    pub txt_trinary: Seq<char>,
    pub txt_nonary: Seq<char>,
    pub txt_decimal: Seq<char>,
    pub is_zero: bool,
    pub is_positive: bool,
    pub is_even: bool,
}

impl View for AnValue {
    type V = AnValueModel;

    open spec fn view(&self) -> AnValueModel {
        AnValueModel {
            val_binary: self.val_binary,
            val_trinary: self.val_trinary,
            txt_binary: self.txt_binary@,
            txt_trinary: self.txt_trinary@,
            txt_nonary: self.txt_nonary@,
            txt_decimal: self.txt_decimal@,
            is_zero: self.is_zero,
            is_positive: self.is_positive,
            is_even: self.is_even,
        }
    }
}

/// The table entry of the value `v`.
pub open spec fn table_entry(v: int) -> AnValueModel {
    AnValueModel {
        val_binary: v as i16,
        val_trinary: 0,
        txt_binary: bin_str(v),
        txt_trinary: ternary_str(v),
        txt_nonary: nonary_str(v),
        txt_decimal: dec_str(v),
        is_zero: v == 0,
        is_positive: v > 0,
        is_even: v % 2 == 0,
    }
}

impl AnValue {
    /// The text of an entry: its balanced ternary notation.
    pub fn to_string(&self) -> (r: String)
        ensures
            r@ == self.txt_trinary@,
    {
        self.txt_trinary.clone()
    }
}

impl Clone for AnValue {
    fn clone(&self) -> (r: Self)
        ensures
            r@ == self@,
    {
        AnValue {
            val_binary: self.val_binary,
            val_trinary: self.val_trinary,
            txt_binary: self.txt_binary.clone(),
            txt_trinary: self.txt_trinary.clone(),
            txt_nonary: self.txt_nonary.clone(),
            txt_decimal: self.txt_decimal.clone(),
            is_zero: self.is_zero,
            is_positive: self.is_positive,
            is_even: self.is_even,
        }
    }
}

impl Default for AnValue {
    fn default() -> (r: Self)
        ensures
            r@ == (AnValueModel {
                val_binary: -364i16,
                val_trinary: 0,
                txt_binary: "0"@,
                txt_trinary: "0"@,
                txt_nonary: "None"@,
                txt_decimal: "None"@,
                is_zero: true,
                is_positive: false,
                is_even: false,
            }),
    {
        AnValue {
            val_binary: VAL_LOW_BOUNDARY,
            val_trinary: 0,
            txt_binary: String::from_str("0"),
            txt_trinary: String::from_str("0"),
            txt_nonary: String::from_str("None"),
            txt_decimal: String::from_str("None"),
            is_zero: true,
            is_positive: false,
            is_even: false,
        }
    }
}

/// Execution context of the VM.
pub struct Context {
    pub m_exception_rised: bool,
    pub programm_pos: usize,
    pub programm_page: usize,
    pub stack_page: usize,
    pub stack_pos: usize,
    pub opcode: u8,
}

impl Default for Context {
    fn default() -> (r: Self)
        ensures
            !r.m_exception_rised,
            r.programm_pos == 0,
            r.programm_page == 0,
            r.stack_page == 0,
            r.stack_pos == 0,
            r.opcode == 0,
    {
        Context {
            m_exception_rised: false,
            programm_pos: 0,
            programm_page: 0,
            stack_page: 0,
            stack_pos: 0,
            opcode: 0,
        }
    }
}

/// Operating mode of the VM.
pub enum MachineMode {
    Basic,
    System,
    User,
}

/// Table index of a value: `v + 364` (a negative sum wraps around).
pub open spec fn val_index_spec(v: i16) -> usize {
    (v + 364) as usize
}

/// The value at the top of `stack`, when its index is in the table.
pub open spec fn top_value(stack: Seq<usize>, values: Seq<AnValue>) -> Option<i16> {
    if stack.len() > 0 && stack.last() < values.len() {
        Some(values[stack.last() as int].val_binary)
    } else {
        None
    }
}

/// `stack` without its top (unchanged when empty).
pub open spec fn pop_stack(stack: Seq<usize>) -> Seq<usize> {
    if stack.len() > 0 {
        stack.drop_last()
    } else {
        stack
    }
}

/// The table-driven VM.
pub struct VM {
    pub values: Vec<AnValue>,
    pub stack: Vec<usize>,
    pub reg_c: usize,
    pub part_c1: usize,
    pub part_ca: usize,
    pub part_ch: usize,
    pub reg_k: usize,
    pub part_k1: usize,
    pub part_ka: usize,
    pub ptr_p: usize,
    pub ptr_top: usize,
    pub ptr_t: usize,
    pub ptr_subtop: usize,
    pub reg_e: usize,
    pub reg_r: usize,
    pub reg_y: usize,
    pub reg_h1: usize,
    pub reg_h2: usize,
    pub reg_h3: usize,
    pub m_state_running: bool,
    pub context: Context,
    pub ram_page: Vec<i32>,
    pub rom_page: Vec<i32>,
    pub page_ram: [Option<Vec<i32>>; 9],
    pub page_rom: [Option<Vec<i32>>; 18],
}

impl VM {
    /// The value table holds at index `v + 364` the entry of `v`, for
    /// every `v` in −364..=364.
    pub open spec fn table_ok(&self) -> bool {
        &&& self.values@.len() == 729
        &&& forall|i: int| 0 <= i < 729 ==> #[trigger] self.values@[i]@ == table_entry(i - 364)
    }

    /// The entry of `v`.
    fn entry(v: i16) -> (r: AnValue)
        requires
            -364 <= v <= 364,
        ensures
            r@ == table_entry(v as int),
    {
        AnValue {
            val_binary: v,
            val_trinary: 0,
            txt_binary: to_binary_string(v),
            txt_trinary: to_balanced_ternary(v),
            txt_nonary: to_balanced_nonary(v),
            txt_decimal: decimal_string(v as i64),
            is_zero: v == 0,
            is_positive: v > 0,
            is_even: v % 2 == 0,
        }
    }

    /// A VM with the full value table, an empty stack and every register
    /// at the index of 0.
    pub fn new() -> (r: Self)
        ensures
            r.table_ok(),
            r.stack@ == Seq::<usize>::empty(),
            r.reg_c == 364 && r.part_c1 == 364 && r.part_ca == 364 && r.part_ch == 364,
            r.reg_k == 364 && r.part_k1 == 364 && r.part_ka == 364,
            r.ptr_p == 364 && r.ptr_top == 364 && r.ptr_t == 364 && r.ptr_subtop == 364,
            r.reg_e == 364 && r.reg_r == 364 && r.reg_y == 364,
            r.reg_h1 == 364 && r.reg_h2 == 364 && r.reg_h3 == 364,
            !r.m_state_running,
            !r.context.m_exception_rised,
            r.context.programm_pos == 0,
            r.context.programm_page == 0,
            r.context.stack_page == 0,
            r.context.stack_pos == 0,
            r.context.opcode == 0,
            r.ram_page@ == Seq::new(81, |i: int| 0i32),
            r.rom_page@ == Seq::new(81, |i: int| 0i32),
            forall|i: int| 0 <= i < 9 ==> #[trigger] r.page_ram[i] is None,
            forall|i: int| 0 <= i < 18 ==> #[trigger] r.page_rom[i] is None,
    {
        let mut values: Vec<AnValue> = Vec::new();
        let mut v: i16 = VAL_LOW_BOUNDARY;
        while v <= VAL_HIGH_BOUNDARY
            invariant
                -364 <= v <= 365,
                values@.len() == v + 364,
                forall|i: int| 0 <= i < values@.len() ==> #[trigger] values@[i]@ == table_entry(i - 364),
            decreases 365 - v,
        {
            values.push(Self::entry(v));
            v = v + 1;
        }
        let center = Self::val_index(0);
        let mut ram_page: Vec<i32> = Vec::new();
        let mut rom_page: Vec<i32> = Vec::new();
        let mut i: usize = 0;
        while i < PAGE_FULL_RANGE
            invariant
                i <= 81,
                ram_page@ == Seq::new(i as nat, |k: int| 0i32),
                rom_page@ == Seq::new(i as nat, |k: int| 0i32),
            decreases 81 - i,
        {
            ram_page.push(0);
            rom_page.push(0);
            i = i + 1;
            assert(ram_page@ =~= Seq::new(i as nat, |k: int| 0i32));
            assert(rom_page@ =~= Seq::new(i as nat, |k: int| 0i32));
        }
        VM {
            values,
            stack: Vec::new(),
            reg_c: center,
            part_c1: center,
            part_ca: center,
            part_ch: center,
            reg_k: center,
            part_k1: center,
            part_ka: center,
            ptr_p: center,
            ptr_top: center,
            ptr_t: center,
            ptr_subtop: center,
            reg_e: center,
            reg_r: center,
            reg_y: center,
            reg_h1: center,
            reg_h2: center,
            reg_h3: center,
            m_state_running: false,
            context: Context::default(),
            ram_page,
            rom_page,
            page_ram: [None, None, None, None, None, None, None, None, None],
            page_rom: [
                None,
                None,
                None,
                None,
                None,
                None,
                None,
                None,
                None,
                None,
                None,
                None,
                None,
                None,
                None,
                None,
                None,
                None,
            ],
        }
    }

    /// Table index of `v`.
    pub fn val_index(v: i16) -> (r: usize)
        ensures
            r == val_index_spec(v),
            -364 <= v ==> r == v + 364,
    {
        (v as isize + 364) as usize
    }

    /// `v` wrapped into −364..=364.
    pub fn wrap_value(v: i32) -> (r: i16)
        requires
            v <= i32::MAX - 364,
        ensures
            r == wrap(v as int, 729),
    {
        crate::util::wrap_value(v)
    }

    /// Pushes the table index of `v`.
    pub fn push(&mut self, v: i16)
        ensures
            *final(self) == (VM { stack: final(self).stack, ..*old(self) }),
            final(self).stack@ == old(self).stack@.push(val_index_spec(v)),
    {
        let idx = VM::val_index(v);
        self.stack.push(idx);
    }

    /// The entry at the top of the stack, if its index is in the table.
    pub fn peek(&self) -> (r: Option<&AnValue>)
        ensures
            (self.stack@.len() > 0 && self.stack@.last() < self.values@.len()) ==> r == Some(
                &self.values@[self.stack@.last() as int],
            ),
            !(self.stack@.len() > 0 && self.stack@.last() < self.values@.len()) ==> r is None,
    {
        let n = self.stack.len();
        if n == 0 {
            return None;
        }
        let idx = self.stack[n - 1];
        if idx < self.values.len() {
            Some(&self.values[idx])
        } else {
            None
        }
    }

    /// Pops the stack; gives a copy of the entry the popped index names,
    /// if it is in the table.
    pub fn pop(&mut self) -> (r: Option<AnValue>)
        ensures
            *final(self) == (VM { stack: final(self).stack, ..*old(self) }),
            final(self).stack@ == pop_stack(old(self).stack@),
            r is Some <==> top_value(old(self).stack@, old(self).values@) is Some,
            r matches Some(a) ==> a@ == old(self).values@[old(self).stack@.last() as int]@,
    {
        match self.stack.pop() {
            Some(idx) => {
                if idx < self.values.len() {
                    Some(self.values[idx].clone())
                } else {
                    None
                }
            },
            None => None,
        }
    }

    /// Runs operation `ko` of the group chosen by the context's opcode
    /// (0 basic, 1 system, 2 macro); any other opcode raises the exception
    /// flag and fails.
    pub fn execute(&mut self, ko: usize) -> (r: Result<(), ()>)
        requires
            old(self).context.opcode == 0 && ko == 22 ==> top_value(old(self).stack@, old(self).values@)
                != Some(i16::MIN),
        ensures
            old(self).context.opcode == 0 ==> r is Ok && BasicOpExecutor::effect(*old(self), ko as int, *final(self)),
            (old(self).context.opcode == 1 || old(self).context.opcode == 2) ==> r is Ok && *final(self)
                == *old(self),
            old(self).context.opcode > 2 ==> r is Err && *final(self) == (VM {
                context: Context { m_exception_rised: true, ..old(self).context },
                ..*old(self)
            }),
    {
        match self.context.opcode {
            0 => BasicOpExecutor::exec(self, ko),
            1 => SystemOpExecutor::exec(self, ko),
            2 => MacroOpExecutor::exec(self, ko),
            _ => {
                self.context.m_exception_rised = true;
                Err(())
            },
        }
    }

    /// Fetches the next operation: the opcode becomes 0 (basic) and the
    /// operation number is 0.
    pub fn fetch(&mut self) -> (r: usize)
        ensures
            r == 0,
            *final(self) == (VM { context: Context { opcode: 0, ..old(self).context }, ..*old(self) }),
    {
        self.context.opcode = 0;
        0
    }

    /// Clears the exception flag.
    pub fn process(&mut self, _ko: usize)
        ensures
            *final(self) == (VM {
                context: Context { m_exception_rised: false, ..old(self).context },
                ..*old(self)
            }),
    {
        if self.context.m_exception_rised {
            self.context.m_exception_rised = false;
        }
    }
}

/// A value of the syllable range pushed on the stack is what the top then
/// holds, and popping it gives the stack back.
pub proof fn law_push_then_top(vm: VM, v: i16)
    requires
        vm.table_ok(),
        -364 <= v <= 364,
    ensures
        top_value(vm.stack@.push(val_index_spec(v)), vm.values@) == Some(v),
        pop_stack(vm.stack@.push(val_index_spec(v))) == vm.stack@,
{
    assert(val_index_spec(v) == v + 364);
    assert(vm.values@[v + 364]@ == table_entry(v as int));
    assert(vm.stack@.push(val_index_spec(v)).drop_last() =~= vm.stack@);
}

} // verus!
