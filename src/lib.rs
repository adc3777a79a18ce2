//! A small bytecode machine in the style of CHIP-8: 4096 bytes of memory,
//! sixteen byte registers, a sixteen-entry call stack and a program counter,
//! driven by a fetch-decode-execute loop that runs until a halt instruction.
pub mod instruction;
pub mod laws;
pub mod machine;
mod rank;
pub mod state;
