//! Laws of the instruction semantics, stated and proved over the spec
//! functions of [`crate::semantics`]: wrapping arithmetic, the clear-screen
//! report, draw's change report and idempotence, and the call/return round
//! trip.

use vstd::prelude::*;

use crate::instruction::Instruction;
use crate::machine::DISPLAY_CELLS;
use crate::machine::MEM_SIZE;
use crate::machine::MachineView;
use crate::machine::STACK_LIMIT;
use crate::semantics::spec_draw;
use crate::semantics::spec_execute;
use crate::semantics::sprite_hits;

verus! {

/// Add-immediate wraps modulo 256 and writes only register `x`: the flag
/// register is untouched whenever it is not itself the destination.
pub proof fn lemma_add_immediate_wraps(pre: MachineView, x: u8, nn: u8, rb: u8)
    requires
        pre.wf(),
        x < 16,
    ensures
        spec_execute(pre, Instruction::AddImmediate { x, nn }, rb) is Ok,
        ({
            let (m1, changed) = spec_execute(pre, Instruction::AddImmediate { x, nn }, rb)->Ok_0;
            &&& m1.regs[x as int] as int == (pre.regs[x as int] + nn) % 256
            &&& forall|i: int| 0 <= i < 16 && i != x ==> m1.regs[i] == pre.regs[i]
            &&& x != 15 ==> m1.regs[15] == pre.regs[15]
            &&& m1 == (MachineView { regs: m1.regs, ..pre })
            &&& !changed
        }),
{
    let (m1, changed) = spec_execute(pre, Instruction::AddImmediate { x, nn }, rb)->Ok_0;
    assert(0 <= (pre.regs[x as int] + nn) % 256 < 256);
}

/// Borrow-subtract stores `(b - a) mod 256` in register `x` and then sets
/// the flag register to 1 exactly when no borrow occurred (`b >= a`), else
/// to 0 — so a flag written as the destination is overwritten.
pub proof fn lemma_subtract_borrow(pre: MachineView, x: u8, y: u8, rb: u8)
    requires
        pre.wf(),
        x < 16,
        y < 16,
    ensures
        spec_execute(pre, Instruction::SubtractBorrow { x, y }, rb) is Ok,
        ({
            let a = pre.regs[x as int];
            let b = pre.regs[y as int];
            let (m1, changed) = spec_execute(pre, Instruction::SubtractBorrow { x, y }, rb)->Ok_0;
            &&& m1.regs[15] == (if b >= a {
                1u8
            } else {
                0u8
            })
            &&& x != 15 ==> m1.regs[x as int] as int == (b - a) % 256
            &&& x != 15 && b >= a ==> m1.regs[x as int] == b - a
            &&& x != 15 && b < a ==> m1.regs[x as int] == b - a + 256
            &&& forall|i: int| 0 <= i < 16 && i != x && i != 15 ==> m1.regs[i] == pre.regs[i]
            &&& m1 == (MachineView { regs: m1.regs, ..pre })
            &&& !changed
        }),
{
    let a = pre.regs[x as int];
    let b = pre.regs[y as int];
    vstd::arithmetic::div_mod::lemma_mod_add_multiples_vanish(b as int - a as int, 256);
    if b >= a {
        vstd::arithmetic::div_mod::lemma_small_mod((b - a) as nat, 256nat);
    } else {
        vstd::arithmetic::div_mod::lemma_small_mod((b + 256 - a) as nat, 256nat);
    }
}

/// Clear-screen always reports a display change and leaves every display
/// cell unlit, also when the display was already clear; nothing else moves.
pub proof fn lemma_clear_screen(pre: MachineView, rb: u8)
    requires
        pre.wf(),
    ensures
        spec_execute(pre, Instruction::ClearScreen, rb) is Ok,
        ({
            let (m1, changed) = spec_execute(pre, Instruction::ClearScreen, rb)->Ok_0;
            &&& changed
            &&& forall|k: int| 0 <= k < DISPLAY_CELLS ==> !(#[trigger] m1.display[k])
            &&& m1 == (MachineView { display: m1.display, ..pre })
        }),
{
}

/// Draw reports a display change exactly when some cell's value differs
/// before and after the XOR.
pub proof fn lemma_draw_changed_iff(pre: MachineView, x: int, y: int, n: int)
    requires
        pre.wf(),
        0 <= x < 16,
        0 <= y < 16,
        0 <= n < 16,
        pre.index + n <= MEM_SIZE,
    ensures
        spec_draw(pre, x, y, n) is Ok,
        ({
            let (m1, changed) = spec_draw(pre, x, y, n)->Ok_0;
            changed == (exists|k: int|
                0 <= k < DISPLAY_CELLS && #[trigger] m1.display[k] != pre.display[k])
        }),
{
    let cx = (pre.regs[x] as int) % 64;
    let cy = (pre.regs[y] as int) % 32;
    let (m1, changed) = spec_draw(pre, x, y, n)->Ok_0;
    if changed {
        let (r, c) = choose|r: int, c: int|
            #[trigger] sprite_hits(pre.mem, pre.index, cx, cy, n, r, c);
        let k = r * 64 + c;
        vstd::arithmetic::div_mod::lemma_fundamental_div_mod_converse_div(k, 64, r, c);
        vstd::arithmetic::div_mod::lemma_fundamental_div_mod_converse_mod(k, 64, r, c);
        assert(0 <= k < DISPLAY_CELLS);
        assert(m1.display[k] != pre.display[k]);
    }
    if exists|k: int| 0 <= k < DISPLAY_CELLS && #[trigger] m1.display[k] != pre.display[k] {
        let k = choose|k: int| 0 <= k < DISPLAY_CELLS && #[trigger] m1.display[k] != pre.display[k];
        assert(sprite_hits(pre.mem, pre.index, cx, cy, n, k / 64, k % 64));
    }
}

/// Draw is its own inverse at the same position with the same sprite: a
/// second identical draw restores the display, reports the same change flag,
/// and its collision condition holds exactly for the cells the first draw
/// turned on. The position registers must not be the flag register, which
/// the first draw may overwrite.
pub proof fn lemma_draw_idempotent(pre: MachineView, x: int, y: int, n: int)
    requires
        pre.wf(),
        0 <= x < 16,
        0 <= y < 16,
        0 <= n < 16,
        x != 15,
        y != 15,
        pre.index + n <= MEM_SIZE,
    ensures
        spec_draw(pre, x, y, n) is Ok,
        ({
            let cx = (pre.regs[x] as int) % 64;
            let cy = (pre.regs[y] as int) % 32;
            let (m1, changed1) = spec_draw(pre, x, y, n)->Ok_0;
            &&& spec_draw(m1, x, y, n) is Ok
            &&& spec_draw(m1, x, y, n)->Ok_0.0.display == pre.display
            &&& spec_draw(m1, x, y, n)->Ok_0.1 == changed1
            &&& (exists|r: int, c: int|
                #[trigger] sprite_hits(m1.mem, m1.index, cx, cy, n, r, c) && m1.display[r * 64
                    + c]) == (exists|r: int, c: int|
                #[trigger] sprite_hits(pre.mem, pre.index, cx, cy, n, r, c) && !pre.display[r * 64
                    + c])
        }),
{
    let cx = (pre.regs[x] as int) % 64;
    let cy = (pre.regs[y] as int) % 32;
    let (m1, changed1) = spec_draw(pre, x, y, n)->Ok_0;
    assert(m1.regs[x] == pre.regs[x]);
    assert(m1.regs[y] == pre.regs[y]);
    assert(m1.mem == pre.mem);
    assert(m1.index == pre.index);
    let r2 = spec_draw(m1, x, y, n);
    assert(r2 is Ok);
    let (m2, changed2) = r2->Ok_0;
    assert forall|k: int| 0 <= k < DISPLAY_CELLS implies m2.display[k] == pre.display[k] by {}
    assert(m2.display =~= pre.display);
    if changed1 {
        let (r, c) = choose|r: int, c: int|
            #[trigger] sprite_hits(pre.mem, pre.index, cx, cy, n, r, c);
        assert(sprite_hits(m1.mem, m1.index, cx, cy, n, r, c));
    }
    if changed2 {
        let (r, c) = choose|r: int, c: int|
            #[trigger] sprite_hits(m1.mem, m1.index, cx, cy, n, r, c);
        assert(sprite_hits(pre.mem, pre.index, cx, cy, n, r, c));
    }
    assert(changed2 == changed1);
    if exists|r: int, c: int|
        #[trigger] sprite_hits(m1.mem, m1.index, cx, cy, n, r, c) && m1.display[r * 64 + c] {
        let (r, c) = choose|r: int, c: int|
            #[trigger] sprite_hits(m1.mem, m1.index, cx, cy, n, r, c) && m1.display[r * 64 + c];
        let k = r * 64 + c;
        vstd::arithmetic::div_mod::lemma_fundamental_div_mod_converse_div(k, 64, r, c);
        vstd::arithmetic::div_mod::lemma_fundamental_div_mod_converse_mod(k, 64, r, c);
        assert(m1.display[k] == (pre.display[k] != sprite_hits(pre.mem, pre.index, cx, cy, n, r,
            c)));
        assert(sprite_hits(pre.mem, pre.index, cx, cy, n, r, c) && !pre.display[r * 64 + c]);
    }
    if exists|r: int, c: int|
        #[trigger] sprite_hits(pre.mem, pre.index, cx, cy, n, r, c) && !pre.display[r * 64 + c] {
        let (r, c) = choose|r: int, c: int|
            #[trigger] sprite_hits(pre.mem, pre.index, cx, cy, n, r, c) && !pre.display[r * 64 + c];
        let k = r * 64 + c;
        vstd::arithmetic::div_mod::lemma_fundamental_div_mod_converse_div(k, 64, r, c);
        vstd::arithmetic::div_mod::lemma_fundamental_div_mod_converse_mod(k, 64, r, c);
        assert(m1.display[k] == (pre.display[k] != sprite_hits(pre.mem, pre.index, cx, cy, n, r,
            c)));
        assert(sprite_hits(m1.mem, m1.index, cx, cy, n, r, c) && m1.display[r * 64 + c]);
    }
}

/// Executing a call and then a return restores the program counter to the
/// address immediately following the call instruction, and restores the call
/// stack; memory, registers, display and index register never move.
pub proof fn lemma_call_return_round_trip(pre: MachineView, nnn: u16, rb1: u8, rb2: u8)
    requires
        pre.wf(),
        pre.stack.len() < STACK_LIMIT,
    ensures
        spec_execute(pre, Instruction::Call { nnn }, rb1) is Ok,
        ({
            let (m1, changed1) = spec_execute(pre, Instruction::Call { nnn }, rb1)->Ok_0;
            &&& m1.pc == nnn
            &&& spec_execute(m1, Instruction::Return, rb2) is Ok
            &&& spec_execute(m1, Instruction::Return, rb2)->Ok_0.0 == (MachineView {
                pc: pre.pc,
                ..pre
            })
        }),
{
    let (m1, changed1) = spec_execute(pre, Instruction::Call { nnn }, rb1)->Ok_0;
    assert(m1.stack.len() == pre.stack.len() + 1);
    let (m2, changed2) = spec_execute(m1, Instruction::Return, rb2)->Ok_0;
    assert(m1.stack.last() == pre.pc);
    assert(m1.stack.drop_last() =~= pre.stack);
    assert(m2 =~= (MachineView { pc: pre.pc, ..pre }));
}

} // verus!
