//! The mathematical semantics of the instruction set: what one fetch or one
//! execute does to a [`MachineView`], stated as spec functions. The verified
//! interpreter in [`crate::machine`] is proved against these.

use vstd::prelude::*;

use crate::instruction::Chip8Error;
use crate::instruction::Instruction;
use crate::instruction::spec_decode;
use crate::machine::DISPLAY_CELLS;
use crate::machine::DISPLAY_HEIGHT;
use crate::machine::DISPLAY_WIDTH;
use crate::machine::MEM_SIZE;
use crate::machine::MachineView;
use crate::machine::STACK_LIMIT;

verus! {

/// 8-bit wrapping addition: `(a + b) mod 256`.
pub open spec fn wrap_add(a: u8, b: u8) -> u8 {
    (((a as int) + (b as int)) % 256) as u8
}

/// 8-bit wrapping subtraction: `(b - a) mod 256`.
pub open spec fn wrap_sub(b: u8, a: u8) -> u8 {
    (((b as int) - (a as int)) % 256) as u8
}

/// Bit `j` of a sprite byte, most significant bit first: bit 0 is the
/// leftmost drawn column.
pub open spec fn sprite_bit(b: u8, j: int) -> bool {
    (b >> ((7 - j) as u8)) & 1 == 1
}

/// Whether the draw of an `n`-row sprite read from `mem` at `index`, placed
/// at `(cx, cy)`, toggles the display cell `(r, c)`: the cell lies in the
/// sprite's rectangle, is not clipped at the right or bottom edge, and its
/// sprite bit is set.
pub open spec fn sprite_hits(
    mem: Seq<u8>,
    index: int,
    cx: int,
    cy: int,
    n: int,
    r: int,
    c: int,
) -> bool {
    &&& cy <= r < cy + n
    &&& r < DISPLAY_HEIGHT
    &&& cx <= c < cx + 8
    &&& c < DISPLAY_WIDTH
    &&& sprite_bit(mem[index + (r - cy)], c - cx)
}

/// As [`sprite_hits`], but only the part of the draw already performed when
/// rows `0..i` are done and, of row `i`, columns `0..j`.
pub open spec fn sprite_hits_upto(
    mem: Seq<u8>,
    index: int,
    cx: int,
    cy: int,
    i: int,
    j: int,
    r: int,
    c: int,
) -> bool {
    ||| sprite_hits(mem, index, cx, cy, i, r, c)
    ||| {
        &&& r == cy + i
        &&& r < DISPLAY_HEIGHT
        &&& cx <= c < cx + j
        &&& c < DISPLAY_WIDTH
        &&& sprite_bit(mem[index + i], c - cx)
    }
}

/// The draw operation on the view. The sprite position wraps modularly into
/// the grid; past the starting position, pixels falling off the right or
/// bottom edge are clipped. Every hit cell is toggled (XOR). The collision
/// flag is set to 1 when a hit cell was lit, and left untouched otherwise.
/// The reported boolean says whether any cell changed. Reading the sprite
/// past the memory bound is out of bounds and changes nothing.
pub open spec fn spec_draw(pre: MachineView, x: int, y: int, n: int) -> Result<
    (MachineView, bool),
    Chip8Error,
> {
    let cx = (pre.regs[x] as int) % (DISPLAY_WIDTH as int);
    let cy = (pre.regs[y] as int) % (DISPLAY_HEIGHT as int);
    if pre.index + n > MEM_SIZE {
        Err(Chip8Error::OutOfBounds)
    } else {
        let display = Seq::new(
            DISPLAY_CELLS as nat,
            |k: int| pre.display[k] != sprite_hits(pre.mem, pre.index, cx, cy, n, k / 64, k % 64),
        );
        let collision = exists|r: int, c: int|
            #[trigger] sprite_hits(pre.mem, pre.index, cx, cy, n, r, c) && pre.display[r * 64 + c];
        let changed = exists|r: int, c: int|
            #[trigger] sprite_hits(pre.mem, pre.index, cx, cy, n, r, c);
        Ok(
            (
                MachineView {
                    display,
                    regs: if collision {
                        pre.regs.update(15, 1u8)
                    } else {
                        pre.regs
                    },
                    ..pre
                },
                changed,
            ),
        )
    }
}

/// What executing one decoded instruction does to the view. The program
/// counter has already been advanced past the instruction; `rb` is the byte
/// the random source produced, read only by the random-AND instruction. The
/// returned boolean says whether the display changed.
pub open spec fn spec_execute(pre: MachineView, instr: Instruction, rb: u8) -> Result<
    (MachineView, bool),
    Chip8Error,
> {
    match instr {
        Instruction::ClearScreen => Ok(
            (MachineView { display: Seq::new(DISPLAY_CELLS as nat, |k: int| false), ..pre }, true),
        ),
        Instruction::Return => if pre.stack.len() == 0 {
            Err(Chip8Error::StackUnderflow)
        } else {
            Ok((MachineView { pc: pre.stack.last(), stack: pre.stack.drop_last(), ..pre }, false))
        },
        Instruction::Jump { nnn } => Ok((MachineView { pc: nnn as int, ..pre }, false)),
        Instruction::Call { nnn } => if pre.stack.len() >= STACK_LIMIT {
            Err(Chip8Error::StackOverflow)
        } else {
            Ok(
                (
                    MachineView { stack: pre.stack.push(pre.pc), pc: nnn as int, ..pre },
                    false,
                ),
            )
        },
        Instruction::SkipIfEqual { x, nn } => Ok(
            (
                MachineView {
                    pc: if pre.regs[x as int] == nn {
                        pre.pc + 2
                    } else {
                        pre.pc
                    },
                    ..pre
                },
                false,
            ),
        ),
        Instruction::SkipIfNotEqual { x, nn } => Ok(
            (
                MachineView {
                    pc: if pre.regs[x as int] != nn {
                        pre.pc + 2
                    } else {
                        pre.pc
                    },
                    ..pre
                },
                false,
            ),
        ),
        Instruction::LoadImmediate { x, nn } => Ok(
            (MachineView { regs: pre.regs.update(x as int, nn), ..pre }, false),
        ),
        Instruction::AddImmediate { x, nn } => Ok(
            (
                MachineView {
                    regs: pre.regs.update(x as int, wrap_add(pre.regs[x as int], nn)),
                    ..pre
                },
                false,
            ),
        ),
        Instruction::CopyRegister { x, y } => Ok(
            (MachineView { regs: pre.regs.update(x as int, pre.regs[y as int]), ..pre }, false),
        ),
        Instruction::SubtractBorrow { x, y } => {
            let a = pre.regs[x as int];
            let b = pre.regs[y as int];
            Ok(
                (
                    MachineView {
                        regs: pre.regs.update(x as int, wrap_sub(b, a)).update(
                            15,
                            if b >= a {
                                1u8
                            } else {
                                0u8
                            },
                        ),
                        ..pre
                    },
                    false,
                ),
            )
        },
        Instruction::SetIndex { nnn } => Ok(
            (MachineView { index: nnn as int, ..pre }, false),
        ),
        Instruction::RandomAnd { x, nn } => Ok(
            (MachineView { regs: pre.regs.update(x as int, rb & nn), ..pre }, false),
        ),
        Instruction::Draw { x, y, n } => spec_draw(pre, x as int, y as int, n as int),
    }
}

/// At the start of a sprite row, nothing of that row is drawn yet: the
/// partial hit predicate with no columns done coincides with the full one for
/// the rows already done, and so do the two draw conditions (some cell hit;
/// some hit cell lit in `display`).
pub(crate) proof fn lemma_upto_row_start(
    mem: Seq<u8>,
    index: int,
    cx: int,
    cy: int,
    display: Seq<bool>,
    i: int,
)
    ensures
        forall|r: int, c: int|
            #[trigger] sprite_hits_upto(mem, index, cx, cy, i, 0, r, c) == sprite_hits(
                mem, index, cx, cy, i, r, c),
        (exists|r: int, c: int| #[trigger] sprite_hits_upto(mem, index, cx, cy, i, 0, r, c)) == (
        exists|r: int, c: int| #[trigger] sprite_hits(mem, index, cx, cy, i, r, c)),
        (exists|r: int, c: int|
            #[trigger] sprite_hits_upto(mem, index, cx, cy, i, 0, r, c) && display[r * 64 + c]) == (
        exists|r: int, c: int|
            #[trigger] sprite_hits(mem, index, cx, cy, i, r, c) && display[r * 64 + c]),
{
    if exists|r: int, c: int| #[trigger] sprite_hits_upto(mem, index, cx, cy, i, 0, r, c) {
        let (r, c) = choose|r: int, c: int| #[trigger] sprite_hits_upto(mem, index, cx, cy, i, 0, r, c);
        assert(sprite_hits(mem, index, cx, cy, i, r, c));
    }
    if exists|r: int, c: int| #[trigger] sprite_hits(mem, index, cx, cy, i, r, c) {
        let (r, c) = choose|r: int, c: int| #[trigger] sprite_hits(mem, index, cx, cy, i, r, c);
        assert(sprite_hits_upto(mem, index, cx, cy, i, 0, r, c));
    }
    if exists|r: int, c: int|
        #[trigger] sprite_hits_upto(mem, index, cx, cy, i, 0, r, c) && display[r * 64 + c] {
        let (r, c) = choose|r: int, c: int|
            #[trigger] sprite_hits_upto(mem, index, cx, cy, i, 0, r, c) && display[r * 64 + c];
        assert(sprite_hits(mem, index, cx, cy, i, r, c) && display[r * 64 + c]);
    }
    if exists|r: int, c: int|
        #[trigger] sprite_hits(mem, index, cx, cy, i, r, c) && display[r * 64 + c] {
        let (r, c) = choose|r: int, c: int|
            #[trigger] sprite_hits(mem, index, cx, cy, i, r, c) && display[r * 64 + c];
        assert(sprite_hits_upto(mem, index, cx, cy, i, 0, r, c) && display[r * 64 + c]);
    }
}

/// A column that is clipped at the right edge, past the bottom edge, or whose
/// sprite bit is 0 draws nothing: taking it as done changes neither the
/// partial hit predicate nor the two draw conditions.
pub(crate) proof fn lemma_upto_column_unchanged(
    mem: Seq<u8>,
    index: int,
    cx: int,
    cy: int,
    display: Seq<bool>,
    i: int,
    j: int,
)
    requires
        0 <= j,
        cx + j >= DISPLAY_WIDTH || cy + i >= DISPLAY_HEIGHT || !sprite_bit(mem[index + i], j),
    ensures
        forall|r: int, c: int|
            #[trigger] sprite_hits_upto(mem, index, cx, cy, i, j + 1, r, c) == sprite_hits_upto(
                mem, index, cx, cy, i, j, r, c),
        (exists|r: int, c: int| #[trigger] sprite_hits_upto(mem, index, cx, cy, i, j + 1, r, c))
            == (exists|r: int, c: int| #[trigger] sprite_hits_upto(mem, index, cx, cy, i, j, r, c)),
        (exists|r: int, c: int|
            #[trigger] sprite_hits_upto(mem, index, cx, cy, i, j + 1, r, c) && display[r * 64 + c])
            == (exists|r: int, c: int|
            #[trigger] sprite_hits_upto(mem, index, cx, cy, i, j, r, c) && display[r * 64 + c]),
{
    assert forall|r: int, c: int|
        #[trigger] sprite_hits_upto(mem, index, cx, cy, i, j + 1, r, c) == sprite_hits_upto(
            mem, index, cx, cy, i, j, r, c) by {
        if sprite_hits_upto(mem, index, cx, cy, i, j + 1, r, c) && !sprite_hits_upto(
            mem, index, cx, cy, i, j, r, c) {
            assert(c == cx + j);
        }
    }
    if exists|r: int, c: int| #[trigger] sprite_hits_upto(mem, index, cx, cy, i, j + 1, r, c) {
        let (r, c) = choose|r: int, c: int| #[trigger] sprite_hits_upto(mem, index, cx, cy, i, j + 1, r, c);
        assert(sprite_hits_upto(mem, index, cx, cy, i, j, r, c));
    }
    if exists|r: int, c: int| #[trigger] sprite_hits_upto(mem, index, cx, cy, i, j, r, c) {
        let (r, c) = choose|r: int, c: int| #[trigger] sprite_hits_upto(mem, index, cx, cy, i, j, r, c);
        assert(sprite_hits_upto(mem, index, cx, cy, i, j + 1, r, c));
    }
    if exists|r: int, c: int|
        #[trigger] sprite_hits_upto(mem, index, cx, cy, i, j + 1, r, c) && display[r * 64 + c] {
        let (r, c) = choose|r: int, c: int|
            #[trigger] sprite_hits_upto(mem, index, cx, cy, i, j + 1, r, c) && display[r * 64 + c];
        assert(sprite_hits_upto(mem, index, cx, cy, i, j, r, c) && display[r * 64 + c]);
    }
    if exists|r: int, c: int|
        #[trigger] sprite_hits_upto(mem, index, cx, cy, i, j, r, c) && display[r * 64 + c] {
        let (r, c) = choose|r: int, c: int|
            #[trigger] sprite_hits_upto(mem, index, cx, cy, i, j, r, c) && display[r * 64 + c];
        assert(sprite_hits_upto(mem, index, cx, cy, i, j + 1, r, c) && display[r * 64 + c]);
    }
}

/// A column whose sprite bit is 1 and whose cell lies on the grid toggles
/// exactly the cell `(cy + i, cx + j)`: taking it as done adds that one point
/// to the partial hit predicate, makes the some-cell-hit condition true, and
/// adds that cell's litness to the some-hit-cell-lit condition.
pub(crate) proof fn lemma_upto_column_toggle(
    mem: Seq<u8>,
    index: int,
    cx: int,
    cy: int,
    display: Seq<bool>,
    i: int,
    j: int,
)
    requires
        0 <= i,
        0 <= j,
        0 <= cx,
        0 <= cy,
        cx + j < DISPLAY_WIDTH,
        cy + i < DISPLAY_HEIGHT,
        sprite_bit(mem[index + i], j),
    ensures
        forall|r: int, c: int|
            #[trigger] sprite_hits_upto(mem, index, cx, cy, i, j + 1, r, c) == (sprite_hits_upto(
                mem, index, cx, cy, i, j, r, c) || (r == cy + i && c == cx + j)),
        !sprite_hits_upto(mem, index, cx, cy, i, j, cy + i, cx + j),
        exists|r: int, c: int| #[trigger] sprite_hits_upto(mem, index, cx, cy, i, j + 1, r, c),
        (exists|r: int, c: int|
            #[trigger] sprite_hits_upto(mem, index, cx, cy, i, j + 1, r, c) && display[r * 64 + c])
            == ((exists|r: int, c: int|
            #[trigger] sprite_hits_upto(mem, index, cx, cy, i, j, r, c) && display[r * 64 + c])
            || display[(cy + i) * 64 + (cx + j)]),
{
    assert(sprite_hits_upto(mem, index, cx, cy, i, j + 1, cy + i, cx + j));
    if exists|r: int, c: int|
        #[trigger] sprite_hits_upto(mem, index, cx, cy, i, j + 1, r, c) && display[r * 64 + c] {
        let (r, c) = choose|r: int, c: int|
            #[trigger] sprite_hits_upto(mem, index, cx, cy, i, j + 1, r, c) && display[r * 64 + c];
        if r == cy + i && c == cx + j {
            assert(display[(cy + i) * 64 + (cx + j)]);
        } else {
            assert(sprite_hits_upto(mem, index, cx, cy, i, j, r, c) && display[r * 64 + c]);
        }
    }
    if exists|r: int, c: int|
        #[trigger] sprite_hits_upto(mem, index, cx, cy, i, j, r, c) && display[r * 64 + c] {
        let (r, c) = choose|r: int, c: int|
            #[trigger] sprite_hits_upto(mem, index, cx, cy, i, j, r, c) && display[r * 64 + c];
        assert(sprite_hits_upto(mem, index, cx, cy, i, j + 1, r, c) && display[r * 64 + c]);
    }
    if display[(cy + i) * 64 + (cx + j)] {
        assert(sprite_hits_upto(mem, index, cx, cy, i, j + 1, cy + i, cx + j) && display[(cy + i)
            * 64 + (cx + j)]);
    }
}

/// When all 8 columns of row `i` are done, the partial hit predicate
/// coincides with the full one for `i + 1` rows, and so do the two draw
/// conditions.
pub(crate) proof fn lemma_upto_row_done(
    mem: Seq<u8>,
    index: int,
    cx: int,
    cy: int,
    display: Seq<bool>,
    i: int,
)
    requires
        0 <= i,
    ensures
        forall|r: int, c: int|
            #[trigger] sprite_hits_upto(mem, index, cx, cy, i, 8, r, c) == sprite_hits(
                mem, index, cx, cy, i + 1, r, c),
        (exists|r: int, c: int| #[trigger] sprite_hits_upto(mem, index, cx, cy, i, 8, r, c)) == (
        exists|r: int, c: int| #[trigger] sprite_hits(mem, index, cx, cy, i + 1, r, c)),
        (exists|r: int, c: int|
            #[trigger] sprite_hits_upto(mem, index, cx, cy, i, 8, r, c) && display[r * 64 + c]) == (
        exists|r: int, c: int|
            #[trigger] sprite_hits(mem, index, cx, cy, i + 1, r, c) && display[r * 64 + c]),
{
    assert forall|r: int, c: int|
        #[trigger] sprite_hits_upto(mem, index, cx, cy, i, 8, r, c) == sprite_hits(
            mem, index, cx, cy, i + 1, r, c) by {
        if r == cy + i {
            assert(index + (r - cy) == index + i);
        }
    }
    if exists|r: int, c: int| #[trigger] sprite_hits_upto(mem, index, cx, cy, i, 8, r, c) {
        let (r, c) = choose|r: int, c: int| #[trigger] sprite_hits_upto(mem, index, cx, cy, i, 8, r, c);
        assert(sprite_hits(mem, index, cx, cy, i + 1, r, c));
    }
    if exists|r: int, c: int| #[trigger] sprite_hits(mem, index, cx, cy, i + 1, r, c) {
        let (r, c) = choose|r: int, c: int| #[trigger] sprite_hits(mem, index, cx, cy, i + 1, r, c);
        assert(sprite_hits_upto(mem, index, cx, cy, i, 8, r, c));
    }
    if exists|r: int, c: int|
        #[trigger] sprite_hits_upto(mem, index, cx, cy, i, 8, r, c) && display[r * 64 + c] {
        let (r, c) = choose|r: int, c: int|
            #[trigger] sprite_hits_upto(mem, index, cx, cy, i, 8, r, c) && display[r * 64 + c];
        assert(sprite_hits(mem, index, cx, cy, i + 1, r, c) && display[r * 64 + c]);
    }
    if exists|r: int, c: int|
        #[trigger] sprite_hits(mem, index, cx, cy, i + 1, r, c) && display[r * 64 + c] {
        let (r, c) = choose|r: int, c: int|
            #[trigger] sprite_hits(mem, index, cx, cy, i + 1, r, c) && display[r * 64 + c];
        assert(sprite_hits_upto(mem, index, cx, cy, i, 8, r, c) && display[r * 64 + c]);
    }
}

/// A sprite row that starts past the bottom edge is clipped whole: counting
/// it as done changes neither the hit predicate nor the two draw conditions.
pub(crate) proof fn lemma_row_skipped(
    mem: Seq<u8>,
    index: int,
    cx: int,
    cy: int,
    display: Seq<bool>,
    i: int,
)
    requires
        0 <= i,
        cy + i >= DISPLAY_HEIGHT,
    ensures
        forall|r: int, c: int|
            #[trigger] sprite_hits(mem, index, cx, cy, i + 1, r, c) == sprite_hits(
                mem, index, cx, cy, i, r, c),
        (exists|r: int, c: int| #[trigger] sprite_hits(mem, index, cx, cy, i + 1, r, c)) == (
        exists|r: int, c: int| #[trigger] sprite_hits(mem, index, cx, cy, i, r, c)),
        (exists|r: int, c: int|
            #[trigger] sprite_hits(mem, index, cx, cy, i + 1, r, c) && display[r * 64 + c]) == (
        exists|r: int, c: int|
            #[trigger] sprite_hits(mem, index, cx, cy, i, r, c) && display[r * 64 + c]),
{
    if exists|r: int, c: int| #[trigger] sprite_hits(mem, index, cx, cy, i + 1, r, c) {
        let (r, c) = choose|r: int, c: int| #[trigger] sprite_hits(mem, index, cx, cy, i + 1, r, c);
        assert(sprite_hits(mem, index, cx, cy, i, r, c));
    }
    if exists|r: int, c: int| #[trigger] sprite_hits(mem, index, cx, cy, i, r, c) {
        let (r, c) = choose|r: int, c: int| #[trigger] sprite_hits(mem, index, cx, cy, i, r, c);
        assert(sprite_hits(mem, index, cx, cy, i + 1, r, c));
    }
    if exists|r: int, c: int|
        #[trigger] sprite_hits(mem, index, cx, cy, i + 1, r, c) && display[r * 64 + c] {
        let (r, c) = choose|r: int, c: int|
            #[trigger] sprite_hits(mem, index, cx, cy, i + 1, r, c) && display[r * 64 + c];
        assert(sprite_hits(mem, index, cx, cy, i, r, c) && display[r * 64 + c]);
    }
    if exists|r: int, c: int|
        #[trigger] sprite_hits(mem, index, cx, cy, i, r, c) && display[r * 64 + c] {
        let (r, c) = choose|r: int, c: int|
            #[trigger] sprite_hits(mem, index, cx, cy, i, r, c) && display[r * 64 + c];
        assert(sprite_hits(mem, index, cx, cy, i + 1, r, c) && display[r * 64 + c]);
    }
}

/// The big-endian 16-bit instruction at the program counter: high byte at
/// `pc`, low byte at `pc + 1`.
pub open spec fn spec_fetch(m: MachineView) -> u16 {
    (m.mem[m.pc] * 256 + m.mem[m.pc + 1]) as u16
}

/// How one call of `execute` relates its pre- and post-state, opcode, result
/// and random byte: an opcode outside the implemented families reports it
/// with the address it was fetched from and changes nothing; otherwise the
/// machine moves as [`spec_execute`] says, an error leaving it unchanged.
pub open spec fn exec_rel(
    pre: MachineView,
    post: MachineView,
    op: u16,
    res: Result<bool, Chip8Error>,
    rb: u8,
) -> bool {
    match spec_decode(op) {
        None => post == pre && res == Err::<bool, Chip8Error>(
            Chip8Error::UnsupportedOpcode { op, at: (pre.pc - 2) as usize },
        ),
        Some(instr) => match spec_execute(pre, instr, rb) {
            Ok((p, changed)) => post == p && res == Ok::<bool, Chip8Error>(changed),
            Err(e) => post == pre && res == Err::<bool, Chip8Error>(e),
        },
    }
}

/// How one full step (fetch, advance, decode, execute) relates its pre- and
/// post-state, result and random byte: fetching past the memory bound is out
/// of bounds and changes nothing; otherwise the program counter advances by 2
/// and the fetched opcode executes as [`exec_rel`] says.
pub open spec fn step_rel(
    pre: MachineView,
    post: MachineView,
    res: Result<bool, Chip8Error>,
    rb: u8,
) -> bool {
    if pre.pc + 1 >= MEM_SIZE {
        post == pre && res == Err::<bool, Chip8Error>(Chip8Error::OutOfBounds)
    } else {
        exec_rel((MachineView { pc: pre.pc + 2, ..pre }), post, spec_fetch(pre), res, rb)
    }
}

} // verus!
