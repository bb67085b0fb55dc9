use setun70::ops::{BasicOpExecutor, MacroOpExecutor, SystemOpExecutor};
use setun70::util::{
    decimal_string, to_balanced_nonary, to_balanced_ternary, to_binary_string, wrap_value,
};
use setun70::vm::{AnValue, Context, VM};

#[test]
fn value_table_entries() {
    let vm = VM::new();
    assert_eq!(vm.values.len(), 729);
    let e = &vm.values[VM::val_index(-364)];
    assert_eq!(e.val_binary, -364);
    assert_eq!(e.txt_decimal, "-364");
    let e = &vm.values[VM::val_index(5)];
    assert_eq!(e.txt_binary, "101");
    assert_eq!(e.txt_trinary, "PNN");
    assert_eq!(e.txt_nonary, "1W");
    assert!(e.is_positive && !e.is_even && !e.is_zero);
    let e = &vm.values[VM::val_index(0)];
    assert_eq!(e.txt_binary, "0");
    assert_eq!(e.txt_trinary, "O");
    assert_eq!(e.txt_nonary, "0");
    assert!(e.is_zero && e.is_even);
    let e = &vm.values[VM::val_index(-4)];
    assert_eq!(e.txt_binary, "-100");
    assert_eq!(e.txt_trinary, "NN");
    assert_eq!(e.txt_nonary, "W");
    assert!(e.is_even && !e.is_positive);
}

#[test]
fn registers_start_at_zero_index() {
    let vm = VM::new();
    assert_eq!(vm.reg_c, 364);
    assert_eq!(vm.reg_y, 364);
    assert!(vm.stack.is_empty());
    assert!(!vm.m_state_running);
    assert_eq!(vm.ram_page, vec![0; 81]);
}

#[test]
fn push_peek_pop() {
    let mut vm = VM::new();
    assert!(vm.peek().is_none());
    vm.push(-12);
    assert_eq!(vm.peek().unwrap().val_binary, -12);
    let v = vm.pop().unwrap();
    assert_eq!(v.val_binary, -12);
    assert_eq!(v.txt_decimal, "-12");
    assert!(vm.pop().is_none());
}

#[test]
fn val_index_and_wrap() {
    assert_eq!(VM::val_index(-364), 0);
    assert_eq!(VM::val_index(364), 728);
    assert_eq!(VM::wrap_value(365), -364);
    assert_eq!(VM::wrap_value(-365), 364);
    assert_eq!(wrap_value(729 * 3 + 5), 5);
    assert_eq!(wrap_value(-1000), -271);
}

#[test]
fn basic_add_sub_wrap() {
    let mut vm = VM::new();
    vm.push(300);
    vm.push(100);
    BasicOpExecutor::exec(&mut vm, 23).unwrap(); // S+T
    assert_eq!(vm.pop().unwrap().val_binary, -329);
    vm.push(10);
    vm.push(3);
    BasicOpExecutor::exec(&mut vm, 21).unwrap(); // S-T: S := S - T
    assert_eq!(vm.pop().unwrap().val_binary, 7);
    vm.push(5);
    vm.push(2);
    BasicOpExecutor::exec(&mut vm, 21).unwrap();
    assert_eq!(vm.stack.len(), 1);
    assert_eq!(vm.peek().unwrap().val_binary, 3);
    vm.pop();
    BasicOpExecutor::exec(&mut vm, 23).unwrap(); // empty stack: 0 + 0
    assert_eq!(vm.pop().unwrap().val_binary, 0);
}

#[test]
fn basic_tdn_y_ops() {
    let mut vm = VM::new();
    vm.push(42);
    BasicOpExecutor::exec(&mut vm, 22).unwrap(); // TDN
    assert_eq!(vm.peek().unwrap().val_binary, -42);
    BasicOpExecutor::exec(&mut vm, 19).unwrap(); // Y=T
    assert_eq!(vm.reg_y, VM::val_index(-42));
    assert!(vm.stack.is_empty());
    BasicOpExecutor::exec(&mut vm, 17).unwrap(); // W=S: not implemented, no change
    assert_eq!(vm.reg_y, VM::val_index(-42));
    BasicOpExecutor::exec(&mut vm, 16).unwrap(); // YFT
    assert_eq!(vm.reg_y, 364);
    BasicOpExecutor::exec(&mut vm, 0).unwrap(); // not implemented: no change
    assert!(vm.stack.is_empty());
}

#[test]
fn operation_names() {
    assert_eq!(BasicOpExecutor::name(0), "LST");
    assert_eq!(BasicOpExecutor::name(23), "S+T");
    assert_eq!(BasicOpExecutor::name(27), "UNKNOWN");
    assert_eq!(SystemOpExecutor::name(13), "RETNMC");
    assert_eq!(MacroOpExecutor::name(26), "MACRO 27");
    assert_eq!(MacroOpExecutor::name(99), "UNKNOWN");
}

#[test]
fn execute_by_opcode() {
    let mut vm = VM::new();
    assert_eq!(vm.fetch(), 0);
    vm.push(1);
    vm.push(2);
    assert_eq!(vm.execute(23), Ok(()));
    assert_eq!(vm.peek().unwrap().val_binary, 3);
    vm.context.opcode = 1;
    assert_eq!(vm.execute(5), Ok(()));
    vm.context.opcode = 7;
    assert_eq!(vm.execute(0), Err(()));
    assert!(vm.context.m_exception_rised);
    vm.process(0);
    assert!(!vm.context.m_exception_rised);
}

#[test]
fn defaults() {
    let a = AnValue::default();
    assert_eq!(a.val_binary, -364);
    assert_eq!(a.txt_nonary, "None");
    let c = Context::default();
    assert_eq!(c.opcode, 0);
    assert!(!c.m_exception_rised);
}

#[test]
fn number_texts() {
    assert_eq!(to_binary_string(0), "0");
    assert_eq!(to_binary_string(6), "110");
    assert_eq!(to_binary_string(-6), "-110");
    assert_eq!(to_balanced_ternary(0), "O");
    assert_eq!(to_balanced_ternary(8), "PON");
    assert_eq!(to_balanced_ternary(-364), "NNNNNN");
    assert_eq!(to_balanced_nonary(364), "444");
    assert_eq!(to_balanced_nonary(-364), "WWW");
    assert_eq!(to_balanced_nonary(9), "10");
    assert_eq!(decimal_string(-40), "-40");
    assert_eq!(decimal_string(1234567), "1234567");
}

use setun70::debugger::{center_values, command_of, debug_step, format_columns, Command};

#[test]
fn debugger_commands() {
    assert_eq!(command_of("G"), Command::Run);
    assert_eq!(command_of("g"), Command::Run);
    assert_eq!(command_of("h"), Command::Help);
    assert_eq!(command_of("M"), Command::Memory);
    assert_eq!(command_of("r"), Command::Registers);
    assert_eq!(command_of("S"), Command::Step);
    assert_eq!(command_of("x"), Command::Exit);
    assert_eq!(command_of("GG"), Command::Unknown);
    assert_eq!(command_of(""), Command::Unknown);
    assert_eq!(command_of("q"), Command::Unknown);
}

#[test]
fn debugger_step_and_preview() {
    let mut vm = VM::new();
    vm.context.opcode = 2;
    vm.context.m_exception_rised = true;
    vm.push(7);
    let (ko, res) = debug_step(&mut vm);
    assert_eq!(ko, 0);
    assert_eq!(res, Ok(()));
    assert_eq!(vm.context.opcode, 0);
    assert!(!vm.context.m_exception_rised);
    assert_eq!(vm.peek().unwrap().val_binary, 7);
    assert_eq!(center_values(&vm), [-2, -1, 0, 1, 2]);
}

#[test]
fn column_layout() {
    let items = vec![
        ("ab".to_string(), "1".to_string()),
        ("c".to_string(), "22".to_string()),
        ("d".to_string(), "3".to_string()),
    ];
    assert_eq!(format_columns(&items, 2, 1), "ab1 c22\nd3  \n");
    assert_eq!(format_columns(&items, 0, 1), "");
    assert_eq!(format_columns(&items, 4, 2), "ab1  c22  d3  \n");
}

#[test]
fn value_text_is_ternary() {
    let vm = VM::new();
    assert_eq!(vm.values[VM::val_index(-2)].to_string(), "NP");
    assert_eq!(vm.values[VM::val_index(0)].to_string(), "O");
}

#[test]
fn operation_labels() {
    assert_eq!(setun70::ops::operation_label(0, 23), Some(("BASIC", "S+T")));
    assert_eq!(setun70::ops::operation_label(1, 0), Some(("SYSTEM", "COPYG1")));
    assert_eq!(setun70::ops::operation_label(2, 0), Some(("MACRO", "MACRO 1")));
    assert_eq!(setun70::ops::operation_label(3, 0), None);
}
