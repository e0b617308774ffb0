//! Instruction decoding: a 16-bit opcode is split into its nibble fields and
//! mapped to a decoded operation tag carrying its operand fields, and the
//! errors a step of the interpreter can surface.

use vstd::prelude::*;

verus! {

/// A decoded CHIP-8 instruction. Each variant carries the operand fields the
/// operation reads: `x` and `y` are register indices (0..16), `n` a 4-bit
/// immediate, `nn` an 8-bit immediate, and `nnn` a 12-bit address.
#[derive(Clone, Copy, Debug, PartialEq, Eq, Structural)]
pub enum Instruction {
    /// `00E0`: set every display cell to false.
    ClearScreen,
    /// `00EE`: pop a return address from the call stack into the program counter.
    Return,
    /// `1nnn`: set the program counter to `nnn`.
    Jump { nnn: u16 },
    /// `2nnn`: push the program counter, then set it to `nnn`.
    Call { nnn: u16 },
    /// `3xnn`: skip the next instruction if register `x` equals `nn`.
    SkipIfEqual { x: u8, nn: u8 },
    /// `4xnn`: skip the next instruction if register `x` differs from `nn`.
    SkipIfNotEqual { x: u8, nn: u8 },
    /// `6xnn`: set register `x` to `nn`.
    LoadImmediate { x: u8, nn: u8 },
    /// `7xnn`: add `nn` to register `x`, wrapping modulo 256; the flag
    /// register is not written.
    AddImmediate { x: u8, nn: u8 },
    /// `8xy0`: copy register `y` into register `x`.
    CopyRegister { x: u8, y: u8 },
    /// `8xy7`: set register `x` to register `y` minus register `x`, wrapping
    /// modulo 256, then set the flag register to 1 when no borrow occurred,
    /// else to 0.
    SubtractBorrow { x: u8, y: u8 },
    /// `Annn`: set the index register to `nnn`.
    SetIndex { nnn: u16 },
    /// `Cxnn`: set register `x` to a uniformly random byte ANDed with `nn`.
    RandomAnd { x: u8, nn: u8 },
    /// `Dxyn`: XOR an `n`-row sprite read from memory at the index register
    /// onto the display at the position held by registers `x` and `y`.
    Draw { x: u8, y: u8, n: u8 },
}

/// The fatal conditions a step of the interpreter can surface. None of them is
/// recovered from locally; the embedding decides whether to halt or restart.
#[derive(Clone, Copy, Debug, PartialEq, Eq, Structural)]
pub enum Chip8Error {
    /// The decoded opcode matches no implemented instruction family. Carries
    /// the offending 16-bit value and the address it was fetched from.
    UnsupportedOpcode { op: u16, at: usize },
    /// A return was executed with an empty call stack.
    StackUnderflow,
    /// A call was executed with the call stack already at its ceiling.
    StackOverflow,
    /// The program counter or an index-register-derived read falls outside
    /// the 4096-byte memory.
    OutOfBounds,
}

/// The decode table as a mathematical function of the opcode: the top nibble
/// selects the family, the remaining fields are `x = op / 256 % 16`,
/// `y = op / 16 % 16`, `n = op % 16`, `nn = op % 256`, `nnn = op % 4096`.
/// Opcodes outside the implemented families decode to `None`.
pub open spec fn spec_decode(op: u16) -> Option<Instruction> {
    let family = op / 4096;
    let x = (op / 256 % 16) as u8;
    let y = (op / 16 % 16) as u8;
    let n = (op % 16) as u8;
    let nn = (op % 256) as u8;
    let nnn = op % 4096;
    if op == 0x00E0 {
        Some(Instruction::ClearScreen)
    } else if op == 0x00EE {
        Some(Instruction::Return)
    } else if family == 0x1 {
        Some(Instruction::Jump { nnn })
    } else if family == 0x2 {
        Some(Instruction::Call { nnn })
    } else if family == 0x3 {
        Some(Instruction::SkipIfEqual { x, nn })
    } else if family == 0x4 {
        Some(Instruction::SkipIfNotEqual { x, nn })
    } else if family == 0x6 {
        Some(Instruction::LoadImmediate { x, nn })
    } else if family == 0x7 {
        Some(Instruction::AddImmediate { x, nn })
    } else if family == 0x8 && n == 0x0 {
        Some(Instruction::CopyRegister { x, y })
    } else if family == 0x8 && n == 0x7 {
        Some(Instruction::SubtractBorrow { x, y })
    } else if family == 0xA {
        Some(Instruction::SetIndex { nnn })
    } else if family == 0xC {
        Some(Instruction::RandomAnd { x, nn })
    } else if family == 0xD {
        Some(Instruction::Draw { x, y, n })
    } else {
        None
    }
}

impl Instruction {
    /// Decode a 16-bit opcode, or report `None` for an opcode outside the
    /// implemented families.
    pub fn decode(op: u16) -> (r: Option<Instruction>)
        ensures
            r == spec_decode(op),
    {
        let family = op / 4096;
        let x = (op / 256 % 16) as u8;
        let y = (op / 16 % 16) as u8;
        let n = (op % 16) as u8;
        let nn = (op % 256) as u8;
        let nnn = op % 4096;
        if op == 0x00E0 {
            Some(Instruction::ClearScreen)
        } else if op == 0x00EE {
            Some(Instruction::Return)
        } else if family == 0x1 {
            Some(Instruction::Jump { nnn })
        } else if family == 0x2 {
            Some(Instruction::Call { nnn })
        } else if family == 0x3 {
            Some(Instruction::SkipIfEqual { x, nn })
        } else if family == 0x4 {
            Some(Instruction::SkipIfNotEqual { x, nn })
        } else if family == 0x6 {
            Some(Instruction::LoadImmediate { x, nn })
        } else if family == 0x7 {
            Some(Instruction::AddImmediate { x, nn })
        } else if family == 0x8 && n == 0x0 {
            Some(Instruction::CopyRegister { x, y })
        } else if family == 0x8 && n == 0x7 {
            Some(Instruction::SubtractBorrow { x, y })
        } else if family == 0xA {
            Some(Instruction::SetIndex { nnn })
        } else if family == 0xC {
            Some(Instruction::RandomAnd { x, nn })
        } else if family == 0xD {
            Some(Instruction::Draw { x, y, n })
        } else {
            None
        }
    }
}

} // verus!
