//! Emulator of the Setun-70 ternary computer.

pub mod arith;
pub mod trit;
pub mod tryte;
pub mod word;
pub mod registers;
pub mod memory;
pub mod machine;
pub mod io;
pub mod charset;
pub mod util;
pub mod triplet_memory;
pub mod vm;
pub mod ops;
pub mod debugger;
pub mod assembler;
pub mod syllables;
pub mod loader;
pub mod firmware;
