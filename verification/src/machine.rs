//! Machine state and the interpreter on it: the storage of the virtual CPU
//! (memory, registers, program counter, index register, call stack, display),
//! its mathematical view, and the fetch-decode-execute operations, each
//! proved against the semantics in [`crate::semantics`].

use vstd::prelude::*;

use crate::instruction::Chip8Error;
use crate::instruction::Instruction;
use crate::semantics::exec_rel;
use crate::semantics::spec_draw;
use crate::semantics::spec_fetch;
use crate::semantics::step_rel;
use crate::semantics::wrap_add;
use crate::semantics::wrap_sub;
use crate::semantics::sprite_bit;
use crate::semantics::sprite_hits;
use crate::semantics::sprite_hits_upto;
use crate::semantics::lemma_row_skipped;
use crate::semantics::lemma_upto_column_toggle;
use crate::semantics::lemma_upto_column_unchanged;
use crate::semantics::lemma_upto_row_done;
use crate::semantics::lemma_upto_row_start;

verus! {

/// Number of addressable memory cells.
pub const MEM_SIZE: usize = 4096;

/// First address a program is loaded at; the bytes below it are reserved.
pub const PROGRAM_START: usize = 0x200;

/// Display width in cells.
pub const DISPLAY_WIDTH: usize = 64;

/// Display height in cells.
pub const DISPLAY_HEIGHT: usize = 32;

/// Number of display cells; the display is stored row-major, cell
/// `(row, col)` at index `row * 64 + col`.
pub const DISPLAY_CELLS: usize = 2048;

/// Number of variable registers; register 15 doubles as the
/// carry/borrow/collision flag.
pub const NUM_REGISTERS: usize = 16;

/// Ceiling on call-stack depth; a call at this depth reports exhaustion
/// rather than growing further.
pub const STACK_LIMIT: usize = 16;

/// The mathematical view of the machine: every component as a sequence or an
/// integer. The display is row-major, cell `(row, col)` at `row * 64 + col`.
#[verifier::ext_equal]
pub struct MachineView {
    /// The 4096 memory cells.
    pub mem: Seq<u8>,
    /// The program counter: address of the next instruction to fetch.
    pub pc: int,
    /// The 2048 display cells, row-major.
    pub display: Seq<bool>,
    /// The index register: base address for sprite reads.
    pub index: int,
    /// The 16 variable registers.
    pub regs: Seq<u8>,
    /// The call stack of return addresses, last-in first-out at the end.
    pub stack: Seq<int>,
}

impl MachineView {
    /// Well-formedness: every component has its fixed size, the index
    /// register and the stacked return addresses stay within memory, and the
    /// stack respects its ceiling. Constructors establish it and every
    /// operation preserves it.
    pub open spec fn wf(self) -> bool {
        &&& self.mem.len() == MEM_SIZE
        &&& self.display.len() == DISPLAY_CELLS
        &&& self.regs.len() == NUM_REGISTERS
        &&& self.pc >= 0
        &&& 0 <= self.index < MEM_SIZE
        &&& self.stack.len() <= STACK_LIMIT
        &&& forall|i: int| 0 <= i < self.stack.len() ==> 0 <= #[trigger] self.stack[i] <= MEM_SIZE
    }
}

/// The machine at creation: all memory, registers and display cells zero, the
/// call stack empty, the program counter at the program start address.
pub open spec fn initial_machine() -> MachineView {
    MachineView {
        mem: Seq::new(MEM_SIZE as nat, |i: int| 0u8),
        pc: PROGRAM_START as int,
        display: Seq::new(DISPLAY_CELLS as nat, |i: int| false),
        index: 0,
        regs: Seq::new(NUM_REGISTERS as nat, |i: int| 0u8),
        stack: Seq::empty(),
    }
}

/// The machine state of the virtual CPU. The interpreter operations mutate
/// it step by step; renderers read the display through [`Emulator::pixel`].
pub struct Emulator {
    pub(crate) memory: Vec<u8>,
    pub(crate) pc: usize,
    pub(crate) display: Vec<bool>,
    pub(crate) index_register: usize,
    pub(crate) var_registers: Vec<u8>,
    pub(crate) stack: Vec<usize>,
}

impl View for Emulator {
    type V = MachineView;

    closed spec fn view(&self) -> MachineView {
        MachineView {
            mem: self.memory@,
            pc: self.pc as int,
            display: self.display@,
            index: self.index_register as int,
            regs: self.var_registers@,
            stack: Seq::new(self.stack@.len(), |i: int| self.stack@[i] as int),
        }
    }
}

/// A vector of `len` copies of `value`.
fn byte_fill(len: usize, value: u8) -> (r: Vec<u8>)
    ensures
        r@ == Seq::new(len as nat, |i: int| value),
{
    let mut v: Vec<u8> = Vec::new();
    while v.len() < len
        invariant
            v@.len() <= len,
            forall|i: int| 0 <= i < v@.len() ==> v@[i] == value,
        decreases len - v.len(),
    {
        v.push(value);
    }
    proof {
        assert(v@ =~= Seq::new(len as nat, |i: int| value));
    }
    v
}

/// A vector of `len` copies of `value`.
fn bool_fill(len: usize, value: bool) -> (r: Vec<bool>)
    ensures
        r@ == Seq::new(len as nat, |i: int| value),
{
    let mut v: Vec<bool> = Vec::new();
    while v.len() < len
        invariant
            v@.len() <= len,
            forall|i: int| 0 <= i < v@.len() ==> v@[i] == value,
        decreases len - v.len(),
    {
        v.push(value);
    }
    proof {
        assert(v@ =~= Seq::new(len as nat, |i: int| value));
    }
    v
}

impl Emulator {
    /// A fresh machine: zero memory, registers and display, empty call stack,
    /// program counter at the program start address.
    pub fn new() -> (r: Emulator)
        ensures
            r@ == initial_machine(),
            r@.wf(),
    {
        let e = Emulator {
            memory: byte_fill(MEM_SIZE, 0),
            pc: PROGRAM_START,
            display: bool_fill(DISPLAY_CELLS, false),
            index_register: 0,
            var_registers: byte_fill(NUM_REGISTERS, 0),
            stack: Vec::new(),
        };
        proof {
            assert(e@ =~= initial_machine());
        }
        e
    }

    /// Copy the program bytes into memory starting at the program start
    /// address. The caller guarantees the byte count fits below the memory
    /// bound. Nothing but memory changes.
    pub fn load_rom(&mut self, rom: Vec<u8>)
        requires
            old(self)@.wf(),
            rom@.len() <= MEM_SIZE - PROGRAM_START,
        ensures
            final(self)@.wf(),
            final(self)@ == (MachineView {
                mem: Seq::new(
                    MEM_SIZE as nat,
                    |k: int|
                        if PROGRAM_START <= k < PROGRAM_START + rom@.len() {
                            rom@[k - PROGRAM_START]
                        } else {
                            old(self)@.mem[k]
                        },
                ),
                ..old(self)@
            }),
    {
        let mut i: usize = 0;
        while i < rom.len()
            invariant
                old(self)@.wf(),
                i <= rom@.len(),
                rom@.len() <= MEM_SIZE - PROGRAM_START,
                self@.mem.len() == MEM_SIZE,
                forall|k: int|
                    0 <= k < MEM_SIZE ==> self@.mem[k] == (if PROGRAM_START <= k < PROGRAM_START
                        + i {
                        rom@[k - PROGRAM_START]
                    } else {
                        old(self)@.mem[k]
                    }),
                self@.pc == old(self)@.pc,
                self@.display == old(self)@.display,
                self@.index == old(self)@.index,
                self@.regs == old(self)@.regs,
                self@.stack == old(self)@.stack,
            decreases rom@.len() - i,
        {
            self.memory.set(PROGRAM_START + i, rom[i]);
            i = i + 1;
        }
        proof {
            assert(self@ =~= (MachineView {
                mem: Seq::new(
                    MEM_SIZE as nat,
                    |k: int|
                        if PROGRAM_START <= k < PROGRAM_START + rom@.len() {
                            rom@[k - PROGRAM_START]
                        } else {
                            old(self)@.mem[k]
                        },
                ),
                ..old(self)@
            }));
        }
    }

    /// The program counter.
    pub fn get_pc(&self) -> (r: usize)
        ensures
            r == self@.pc,
    {
        self.pc
    }

    /// The index register.
    pub fn get_index(&self) -> (r: usize)
        ensures
            r == self@.index,
    {
        self.index_register
    }

    /// Variable register `i`.
    pub fn get_register(&self, i: usize) -> (r: u8)
        requires
            self@.wf(),
            i < NUM_REGISTERS,
        ensures
            r == self@.regs[i as int],
    {
        self.var_registers[i]
    }

    /// The memory byte at `addr`.
    pub fn memory_at(&self, addr: usize) -> (r: u8)
        requires
            self@.wf(),
            addr < MEM_SIZE,
        ensures
            r == self@.mem[addr as int],
    {
        self.memory[addr]
    }

    /// Current call-stack depth.
    pub fn stack_depth(&self) -> (r: usize)
        ensures
            r == self@.stack.len(),
    {
        self.stack.len()
    }

    /// The display cell at `(row, col)`, row-major.
    pub fn pixel(&self, row: usize, col: usize) -> (r: bool)
        requires
            self@.wf(),
            row < DISPLAY_HEIGHT,
            col < DISPLAY_WIDTH,
        ensures
            r == self@.display[row * DISPLAY_WIDTH + col],
    {
        self.display[row * DISPLAY_WIDTH + col]
    }

    /// Overwrite the display cell at `(row, col)`. Nothing but that cell
    /// changes.
    pub fn set_pixel(&mut self, row: usize, col: usize, on: bool)
        requires
            old(self)@.wf(),
            row < DISPLAY_HEIGHT,
            col < DISPLAY_WIDTH,
        ensures
            final(self)@.wf(),
            final(self)@ == (MachineView {
                display: old(self)@.display.update(row * DISPLAY_WIDTH + col, on),
                ..old(self)@
            }),
    {
        self.display.set(row * DISPLAY_WIDTH + col, on);
        proof {
            assert(self@ =~= (MachineView {
                display: old(self)@.display.update(row * DISPLAY_WIDTH + col, on),
                ..old(self)@
            }));
        }
    }

    /// Draw an `n`-row sprite read from memory at the index register, at the
    /// position held by registers `x` and `y`, taken modulo the grid size.
    /// Hit cells are toggled; pixels past the right or bottom edge are
    /// clipped; a toggle that turns a lit cell off sets the collision flag.
    /// Reports whether any cell changed, or that the sprite read would pass
    /// the memory bound, in which case nothing changes.
    #[verifier::loop_isolation(false)]
    pub fn draw(&mut self, x: usize, y: usize, n: usize) -> (res: Result<bool, Chip8Error>)
        requires
            old(self)@.wf(),
            x < NUM_REGISTERS,
            y < NUM_REGISTERS,
            n < 16,
        ensures
            final(self)@.wf(),
            match spec_draw(old(self)@, x as int, y as int, n as int) {
                Ok((post, changed)) => final(self)@ == post && res == Ok::<bool, Chip8Error>(
                    changed,
                ),
                Err(e) => final(self)@ == old(self)@ && res == Err::<bool, Chip8Error>(e),
            },
    {
        let ghost pre = self@;
        let cx = (self.var_registers[x] % 64) as usize;
        let cy = (self.var_registers[y] % 32) as usize;
        if self.index_register + n > MEM_SIZE {
            return Err(Chip8Error::OutOfBounds);
        }
        let mut changed = false;
        let mut i: usize = 0;
        proof {
            assert(forall|r: int, c: int|
                !sprite_hits(pre.mem, pre.index, cx as int, cy as int, 0, r, c));
        }
        while i < n
            invariant
                i <= n,
                self@.mem == pre.mem,
                self@.pc == pre.pc,
                self@.index == pre.index,
                self@.stack == pre.stack,
                self@.display.len() == DISPLAY_CELLS,
                self@.regs.len() == NUM_REGISTERS,
                forall|k: int|
                    0 <= k < DISPLAY_CELLS ==> self@.display[k] == (pre.display[k] != sprite_hits(
                        pre.mem, pre.index, cx as int, cy as int, i as int, k / 64, k % 64)),
                changed == (exists|r: int, c: int|
                    #[trigger] sprite_hits(pre.mem, pre.index, cx as int, cy as int, i as int, r, c)),
                self@.regs == (if (exists|r: int, c: int|
                    #[trigger] sprite_hits(pre.mem, pre.index, cx as int, cy as int, i as int, r, c)
                        && pre.display[r * 64 + c]) {
                    pre.regs.update(15, 1u8)
                } else {
                    pre.regs
                }),
            decreases n - i,
        {
            let row = cy + i;
            if row < DISPLAY_HEIGHT {
                let sprite = self.memory[self.index_register + i];
                proof {
                    assert(sprite == pre.mem[pre.index + i as int]);
                    lemma_upto_row_start(
                        pre.mem, pre.index, cx as int, cy as int, pre.display, i as int);
                }
                let mut j: usize = 0;
                while j < 8
                    invariant
                        j <= 8,
                        self@.mem == pre.mem,
                        self@.pc == pre.pc,
                        self@.index == pre.index,
                        self@.stack == pre.stack,
                        self@.display.len() == DISPLAY_CELLS,
                        self@.regs.len() == NUM_REGISTERS,
                        forall|k: int|
                            0 <= k < DISPLAY_CELLS ==> self@.display[k] == (pre.display[k]
                                != sprite_hits_upto(pre.mem, pre.index, cx as int, cy as int,
                                    i as int, j as int, k / 64, k % 64)),
                        changed == (exists|r: int, c: int|
                            #[trigger] sprite_hits_upto(pre.mem, pre.index, cx as int, cy as int,
                                i as int, j as int, r, c)),
                        self@.regs == (if (exists|r: int, c: int|
                            #[trigger] sprite_hits_upto(pre.mem, pre.index, cx as int, cy as int,
                                i as int, j as int, r, c) && pre.display[r * 64 + c]) {
                            pre.regs.update(15, 1u8)
                        } else {
                            pre.regs
                        }),
                    decreases 8 - j,
                {
                    let col = cx + j;
                    if col < DISPLAY_WIDTH {
                        let bit = ((sprite >> ((7 - j) as u8)) & 1) == 1;
                        proof {
                            assert((7 - j) as u8 == (7 - (j as int)) as u8);
                            assert(bit == sprite_bit(pre.mem[pre.index + i as int], j as int));
                        }
                        if bit {
                            let pos = row * 64 + col;
                            let cell = self.display[pos];
                            proof {
                                vstd::arithmetic::div_mod::lemma_fundamental_div_mod_converse_div(
                                    pos as int, 64, row as int, col as int);
                                vstd::arithmetic::div_mod::lemma_fundamental_div_mod_converse_mod(
                                    pos as int, 64, row as int, col as int);
                                lemma_upto_column_toggle(pre.mem, pre.index, cx as int, cy as int,
                                    pre.display, i as int, j as int);
                                assert(!sprite_hits_upto(pre.mem, pre.index, cx as int, cy as int,
                                    i as int, j as int, row as int, col as int));
                                assert(cell == pre.display[pos as int]);
                            }
                            self.display.set(pos, !cell);
                            changed = true;
                            if cell {
                                self.var_registers.set(15, 1);
                                proof {
                                    assert(self@.regs =~= pre.regs.update(15, 1u8));
                                }
                            }
                            proof {
                                assert forall|k: int| 0 <= k < DISPLAY_CELLS implies self@.display[k]
                                    == (pre.display[k] != sprite_hits_upto(pre.mem, pre.index,
                                        cx as int, cy as int, i as int, j as int + 1, k / 64,
                                        k % 64)) by {
                                    if k != pos as int {
                                        vstd::arithmetic::div_mod::lemma_fundamental_div_mod(k, 64);
                                    }
                                }
                            }
                        } else {
                            proof {
                                lemma_upto_column_unchanged(pre.mem, pre.index, cx as int,
                                    cy as int, pre.display, i as int, j as int);
                            }
                        }
                    } else {
                        proof {
                            lemma_upto_column_unchanged(pre.mem, pre.index, cx as int, cy as int,
                                pre.display, i as int, j as int);
                        }
                    }
                    j += 1;
                }
                proof {
                    lemma_upto_row_done(
                        pre.mem, pre.index, cx as int, cy as int, pre.display, i as int);
                }
            } else {
                proof {
                    lemma_row_skipped(
                        pre.mem, pre.index, cx as int, cy as int, pre.display, i as int);
                }
            }
            i += 1;
        }
        proof {
            let ghost scx = (pre.regs[x as int] as int) % (DISPLAY_WIDTH as int);
            let ghost scy = (pre.regs[y as int] as int) % (DISPLAY_HEIGHT as int);
            assert(scx == cx as int);
            assert(scy == cy as int);
            let ghost res0 = spec_draw(pre, x as int, y as int, n as int);
            assert(res0 is Ok);
            let ghost (post, ch) = res0->Ok_0;
            if changed {
                let (r, c) = choose|r: int, c: int|
                    #[trigger] sprite_hits(pre.mem, pre.index, cx as int, cy as int, n as int, r, c);
                assert(sprite_hits(pre.mem, pre.index, scx, scy, n as int, r, c));
            }
            if ch {
                let (r, c) = choose|r: int, c: int|
                    #[trigger] sprite_hits(pre.mem, pre.index, scx, scy, n as int, r, c);
                assert(sprite_hits(pre.mem, pre.index, cx as int, cy as int, n as int, r, c));
            }
            assert(ch == changed);
            if exists|r: int, c: int|
                #[trigger] sprite_hits(pre.mem, pre.index, cx as int, cy as int, n as int, r, c)
                    && pre.display[r * 64 + c] {
                let (r, c) = choose|r: int, c: int|
                    #[trigger] sprite_hits(pre.mem, pre.index, cx as int, cy as int, n as int, r, c)
                        && pre.display[r * 64 + c];
                assert(sprite_hits(pre.mem, pre.index, scx, scy, n as int, r, c) && pre.display[r
                    * 64 + c]);
            }
            if exists|r: int, c: int|
                #[trigger] sprite_hits(pre.mem, pre.index, scx, scy, n as int, r, c)
                    && pre.display[r * 64 + c] {
                let (r, c) = choose|r: int, c: int|
                    #[trigger] sprite_hits(pre.mem, pre.index, scx, scy, n as int, r, c)
                        && pre.display[r * 64 + c];
                assert(sprite_hits(pre.mem, pre.index, cx as int, cy as int, n as int, r, c)
                    && pre.display[r * 64 + c]);
            }
            assert(self@.regs == post.regs);
            assert forall|k: int| 0 <= k < DISPLAY_CELLS implies self@.display[k] == post.display[k]
                by {}
            assert(self@.display =~= post.display);
            assert(self@ =~= post);
        }
        Ok(changed)
    }

    /// Execute one already-fetched opcode. The program counter has been
    /// advanced past it, so jumps and calls set absolute targets and the
    /// pushed return address is the address following the instruction. An
    /// opcode outside the implemented families is reported with the address
    /// it was fetched from, and nothing changes.
    pub fn execute(&mut self, op: u16) -> (res: Result<bool, Chip8Error>)
        requires
            old(self)@.wf(),
            2 <= old(self)@.pc <= MEM_SIZE,
        ensures
            final(self)@.wf(),
            exists|rb: u8| #[trigger] exec_rel(old(self)@, final(self)@, op, res, rb),
    {
        let ghost pre = self@;
        match Instruction::decode(op) {
            None => {
                let at = self.pc - 2;
                let res = Err(Chip8Error::UnsupportedOpcode { op, at });
                proof {
                    assert(exec_rel(pre, self@, op, res, 0u8));
                }
                res
            },
            Some(instr) => match instr {
                Instruction::ClearScreen => {
                    self.display = bool_fill(DISPLAY_CELLS, false);
                    proof {
                        assert(self@ =~= (MachineView {
                            display: Seq::new(DISPLAY_CELLS as nat, |k: int| false),
                            ..pre
                        }));
                        assert(exec_rel(pre, self@, op, Ok::<bool, Chip8Error>(true), 0u8));
                    }
                    Ok(true)
                },
                Instruction::Return => {
                    if self.stack.len() == 0 {
                        proof {
                            assert(exec_rel(pre, self@, op, Err::<bool, Chip8Error>(
                                Chip8Error::StackUnderflow), 0u8));
                        }
                        Err(Chip8Error::StackUnderflow)
                    } else {
                        let popped = self.stack.pop();
                        match popped {
                            Some(addr) => {
                                self.pc = addr;
                                proof {
                                    assert(self@.stack =~= pre.stack.drop_last());
                                    assert(self@ =~= (MachineView {
                                        pc: pre.stack.last(),
                                        stack: pre.stack.drop_last(),
                                        ..pre
                                    }));
                                    assert(exec_rel(pre, self@, op, Ok::<bool, Chip8Error>(false),
                                        0u8));
                                }
                                Ok(false)
                            },
                            None => {
                                proof {
                                    assert(false);
                                }
                                Err(Chip8Error::StackUnderflow)
                            },
                        }
                    }
                },
                Instruction::Jump { nnn } => {
                    self.pc = nnn as usize;
                    proof {
                        assert(self@ =~= (MachineView { pc: nnn as int, ..pre }));
                        assert(exec_rel(pre, self@, op, Ok::<bool, Chip8Error>(false), 0u8));
                    }
                    Ok(false)
                },
                Instruction::Call { nnn } => {
                    if self.stack.len() >= STACK_LIMIT {
                        proof {
                            assert(exec_rel(pre, self@, op, Err::<bool, Chip8Error>(
                                Chip8Error::StackOverflow), 0u8));
                        }
                        Err(Chip8Error::StackOverflow)
                    } else {
                        self.stack.push(self.pc);
                        self.pc = nnn as usize;
                        proof {
                            assert(self@.stack =~= pre.stack.push(pre.pc));
                            assert(self@ =~= (MachineView {
                                stack: pre.stack.push(pre.pc),
                                pc: nnn as int,
                                ..pre
                            }));
                            assert(exec_rel(pre, self@, op, Ok::<bool, Chip8Error>(false), 0u8));
                        }
                        Ok(false)
                    }
                },
                Instruction::SkipIfEqual { x, nn } => {
                    assert(x < 16);
                    if self.var_registers[x as usize] == nn {
                        self.pc = self.pc + 2;
                    }
                    proof {
                        assert(self@ =~= (MachineView {
                            pc: if pre.regs[x as int] == nn {
                                pre.pc + 2
                            } else {
                                pre.pc
                            },
                            ..pre
                        }));
                        assert(exec_rel(pre, self@, op, Ok::<bool, Chip8Error>(false), 0u8));
                    }
                    Ok(false)
                },
                Instruction::SkipIfNotEqual { x, nn } => {
                    assert(x < 16);
                    if self.var_registers[x as usize] != nn {
                        self.pc = self.pc + 2;
                    }
                    proof {
                        assert(self@ =~= (MachineView {
                            pc: if pre.regs[x as int] != nn {
                                pre.pc + 2
                            } else {
                                pre.pc
                            },
                            ..pre
                        }));
                        assert(exec_rel(pre, self@, op, Ok::<bool, Chip8Error>(false), 0u8));
                    }
                    Ok(false)
                },
                Instruction::LoadImmediate { x, nn } => {
                    assert(x < 16);
                    self.var_registers.set(x as usize, nn);
                    proof {
                        assert(self@ =~= (MachineView {
                            regs: pre.regs.update(x as int, nn),
                            ..pre
                        }));
                        assert(exec_rel(pre, self@, op, Ok::<bool, Chip8Error>(false), 0u8));
                    }
                    Ok(false)
                },
                Instruction::AddImmediate { x, nn } => {
                    assert(x < 16);
                    let vx = self.var_registers[x as usize];
                    let sum = ((vx as u16) + (nn as u16)) % 256;
                    self.var_registers.set(x as usize, sum as u8);
                    proof {
                        assert(sum as u8 == wrap_add(vx, nn));
                        assert(self@ =~= (MachineView {
                            regs: pre.regs.update(x as int, wrap_add(pre.regs[x as int], nn)),
                            ..pre
                        }));
                        assert(exec_rel(pre, self@, op, Ok::<bool, Chip8Error>(false), 0u8));
                    }
                    Ok(false)
                },
                Instruction::CopyRegister { x, y } => {
                    assert(x < 16 && y < 16);
                    let vy = self.var_registers[y as usize];
                    self.var_registers.set(x as usize, vy);
                    proof {
                        assert(self@ =~= (MachineView {
                            regs: pre.regs.update(x as int, pre.regs[y as int]),
                            ..pre
                        }));
                        assert(exec_rel(pre, self@, op, Ok::<bool, Chip8Error>(false), 0u8));
                    }
                    Ok(false)
                },
                Instruction::SubtractBorrow { x, y } => {
                    assert(x < 16 && y < 16);
                    let a = self.var_registers[x as usize];
                    let b = self.var_registers[y as usize];
                    let diff = ((b as u16) + 256 - (a as u16)) % 256;
                    let flag: u8 = if b >= a {
                        1
                    } else {
                        0
                    };
                    self.var_registers.set(x as usize, diff as u8);
                    self.var_registers.set(15, flag);
                    proof {
                        assert(diff as u8 == wrap_sub(b, a)) by {
                            vstd::arithmetic::div_mod::lemma_mod_add_multiples_vanish(
                                b as int - a as int, 256);
                            if b >= a {
                                vstd::arithmetic::div_mod::lemma_small_mod(
                                    (b - a) as nat, 256nat);
                            } else {
                                vstd::arithmetic::div_mod::lemma_small_mod(
                                    (b + 256 - a) as nat, 256nat);
                            }
                        };
                        assert(self@ =~= (MachineView {
                            regs: pre.regs.update(x as int, wrap_sub(b, a)).update(15, flag),
                            ..pre
                        }));
                        assert(exec_rel(pre, self@, op, Ok::<bool, Chip8Error>(false), 0u8));
                    }
                    Ok(false)
                },
                Instruction::SetIndex { nnn } => {
                    assert(nnn < 4096);
                    self.index_register = nnn as usize;
                    proof {
                        assert(self@ =~= (MachineView { index: nnn as int, ..pre }));
                        assert(exec_rel(pre, self@, op, Ok::<bool, Chip8Error>(false), 0u8));
                    }
                    Ok(false)
                },
                Instruction::RandomAnd { x, nn } => {
                    assert(x < 16);
                    let rb: u8 = rand::random();
                    self.var_registers.set(x as usize, rb & nn);
                    proof {
                        assert(self@ =~= (MachineView {
                            regs: pre.regs.update(x as int, rb & nn),
                            ..pre
                        }));
                        assert(exec_rel(pre, self@, op, Ok::<bool, Chip8Error>(false), rb));
                    }
                    Ok(false)
                },
                Instruction::Draw { x, y, n } => {
                    assert(x < 16 && y < 16 && n < 16);
                    let res = self.draw(x as usize, y as usize, n as usize);
                    proof {
                        assert(exec_rel(pre, self@, op, res, 0u8));
                    }
                    res
                },
            },
        }
    }

    /// One step of the interpreter: fetch the big-endian 16-bit instruction
    /// at the program counter, advance the program counter by 2, execute the
    /// instruction, and report whether the display changed — or the error
    /// that stopped the step, as [`crate::semantics::step_rel`] states.
    pub fn execute_current(&mut self) -> (res: Result<bool, Chip8Error>)
        requires
            old(self)@.wf(),
        ensures
            final(self)@.wf(),
            exists|rb: u8| #[trigger] step_rel(old(self)@, final(self)@, res, rb),
    {
        let ghost pre = self@;
        if self.pc >= MEM_SIZE - 1 {
            proof {
                assert(step_rel(pre, self@, Err::<bool, Chip8Error>(Chip8Error::OutOfBounds), 0u8));
            }
            return Err(Chip8Error::OutOfBounds);
        }
        let hi = self.memory[self.pc];
        let lo = self.memory[self.pc + 1];
        let op = (hi as u16) * 256 + (lo as u16);
        self.pc = self.pc + 2;
        let ghost mid = self@;
        proof {
            assert(mid =~= (MachineView { pc: pre.pc + 2, ..pre }));
            assert(op == spec_fetch(pre));
        }
        let res = self.execute(op);
        proof {
            let rb = choose|rb: u8| exec_rel(mid, self@, op, res, rb);
            assert(step_rel(pre, self@, res, rb));
        }
        res
    }
}

/// Relies on `rand::random`: a value drawn from the thread-local generator,
/// uniform over `u8` when `T` is `u8`. Nothing can be promised of the value.
pub assume_specification<T>[ rand::random::<T> ]() -> (r: T)
    where rand::distributions::Standard: rand::distributions::Distribution<T>
;

} // verus!
