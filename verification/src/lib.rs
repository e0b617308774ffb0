//! A verified CHIP-8 interpreter core: machine state, instruction decoding,
//! and the fetch-decode-execute cycle, with bit-exact opcode semantics.

pub mod instruction;
pub mod laws;
pub mod machine;
pub mod semantics;

pub use instruction::Chip8Error;
pub use instruction::Instruction;
pub use machine::Emulator;
pub use machine::MachineView;
