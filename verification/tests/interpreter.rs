use chip8::Chip8Error;
use chip8::Emulator;
use chip8::Instruction;

#[test]
fn new_machine_starts_clean() {
    let e = Emulator::new();
    assert_eq!(e.get_pc(), 0x200);
    assert_eq!(e.get_index(), 0);
    assert_eq!(e.stack_depth(), 0);
    for i in 0..16 {
        assert_eq!(e.get_register(i), 0);
    }
    for row in 0..32 {
        for col in 0..64 {
            assert!(!e.pixel(row, col));
        }
    }
}

#[test]
fn load_rom_places_bytes_at_program_start() {
    let mut e = Emulator::new();
    e.load_rom(vec![1, 2, 3]);
    assert_eq!(e.memory_at(0x1FF), 0);
    assert_eq!(e.memory_at(0x200), 1);
    assert_eq!(e.memory_at(0x201), 2);
    assert_eq!(e.memory_at(0x202), 3);
    assert_eq!(e.memory_at(0x203), 0);
}

#[test]
fn decode_implemented_families() {
    assert_eq!(Instruction::decode(0x00E0), Some(Instruction::ClearScreen));
    assert_eq!(Instruction::decode(0x00EE), Some(Instruction::Return));
    assert_eq!(Instruction::decode(0x1234), Some(Instruction::Jump { nnn: 0x234 }));
    assert_eq!(Instruction::decode(0x2ABC), Some(Instruction::Call { nnn: 0xABC }));
    assert_eq!(Instruction::decode(0x3A7F), Some(Instruction::SkipIfEqual { x: 0xA, nn: 0x7F }));
    assert_eq!(Instruction::decode(0x4A7F), Some(Instruction::SkipIfNotEqual { x: 0xA, nn: 0x7F }));
    assert_eq!(Instruction::decode(0x6005), Some(Instruction::LoadImmediate { x: 0, nn: 5 }));
    assert_eq!(Instruction::decode(0x7003), Some(Instruction::AddImmediate { x: 0, nn: 3 }));
    assert_eq!(Instruction::decode(0x8340), Some(Instruction::CopyRegister { x: 3, y: 4 }));
    assert_eq!(Instruction::decode(0x8347), Some(Instruction::SubtractBorrow { x: 3, y: 4 }));
    assert_eq!(Instruction::decode(0xA300), Some(Instruction::SetIndex { nnn: 0x300 }));
    assert_eq!(Instruction::decode(0xC50F), Some(Instruction::RandomAnd { x: 5, nn: 0x0F }));
    assert_eq!(Instruction::decode(0xD015), Some(Instruction::Draw { x: 0, y: 1, n: 5 }));
}

#[test]
fn decode_rejects_unimplemented_opcodes() {
    assert_eq!(Instruction::decode(0x0000), None);
    assert_eq!(Instruction::decode(0x00E1), None);
    assert_eq!(Instruction::decode(0x5120), None);
    assert_eq!(Instruction::decode(0x8341), None);
    assert_eq!(Instruction::decode(0x9120), None);
    assert_eq!(Instruction::decode(0xB123), None);
    assert_eq!(Instruction::decode(0xE09E), None);
    assert_eq!(Instruction::decode(0xF01E), None);
}

#[test]
fn load_then_add_immediate() {
    // set register 0 to 0x05, add 0x03: expect 0x08
    let mut e = Emulator::new();
    e.load_rom(vec![0x60, 0x05, 0x70, 0x03]);
    assert_eq!(e.execute_current(), Ok(false));
    assert_eq!(e.get_register(0), 0x05);
    assert_eq!(e.execute_current(), Ok(false));
    assert_eq!(e.get_register(0), 0x08);
    assert_eq!(e.get_pc(), 0x204);
}

#[test]
fn add_immediate_wraps_and_leaves_flag() {
    // 0xFF + 0x02 wraps to 0x01 and register F keeps its value
    let mut e = Emulator::new();
    e.load_rom(vec![0x60, 0xFF, 0x6F, 0x07, 0x70, 0x02]);
    assert_eq!(e.execute_current(), Ok(false));
    assert_eq!(e.execute_current(), Ok(false));
    assert_eq!(e.execute_current(), Ok(false));
    assert_eq!(e.get_register(0), 0x01);
    assert_eq!(e.get_register(0xF), 0x07);
}

#[test]
fn subtract_borrow_without_borrow() {
    // register 3 := register 4 - register 3 = 7 - 5; no borrow, flag 1
    let mut e = Emulator::new();
    e.load_rom(vec![0x63, 0x05, 0x64, 0x07, 0x83, 0x47]);
    assert_eq!(e.execute_current(), Ok(false));
    assert_eq!(e.execute_current(), Ok(false));
    assert_eq!(e.execute_current(), Ok(false));
    assert_eq!(e.get_register(3), 2);
    assert_eq!(e.get_register(0xF), 1);
}

#[test]
fn subtract_borrow_with_borrow_wraps() {
    // register 3 := register 4 - register 3 = 5 - 7 = 254 mod 256; flag 0
    let mut e = Emulator::new();
    e.load_rom(vec![0x63, 0x07, 0x64, 0x05, 0x83, 0x47]);
    assert_eq!(e.execute_current(), Ok(false));
    assert_eq!(e.execute_current(), Ok(false));
    assert_eq!(e.execute_current(), Ok(false));
    assert_eq!(e.get_register(3), 254);
    assert_eq!(e.get_register(0xF), 0);
}

#[test]
fn subtract_borrow_into_flag_register_is_overwritten() {
    // register F as destination: the flag side effect, written after the
    // result, wins: F := 7 - 5 = 2, then F := 1 (no borrow)
    let mut e = Emulator::new();
    e.load_rom(vec![0x6F, 0x05, 0x63, 0x07, 0x8F, 0x37]);
    assert_eq!(e.execute_current(), Ok(false));
    assert_eq!(e.execute_current(), Ok(false));
    assert_eq!(e.execute_current(), Ok(false));
    assert_eq!(e.get_register(0xF), 1);
}

#[test]
fn add_immediate_into_flag_register_writes_no_flag() {
    // add-immediate never writes the flag as a side effect, so register F
    // as destination simply holds the wrapped sum
    let mut e = Emulator::new();
    e.load_rom(vec![0x6F, 0x07, 0x7F, 0x02]);
    assert_eq!(e.execute_current(), Ok(false));
    assert_eq!(e.execute_current(), Ok(false));
    assert_eq!(e.get_register(0xF), 9);
}

#[test]
fn copy_register() {
    let mut e = Emulator::new();
    e.load_rom(vec![0x6A, 0x12, 0x8B, 0xA0]);
    assert_eq!(e.execute_current(), Ok(false));
    assert_eq!(e.execute_current(), Ok(false));
    assert_eq!(e.get_register(0xB), 0x12);
    assert_eq!(e.get_register(0xA), 0x12);
}

#[test]
fn jump_sets_pc() {
    let mut e = Emulator::new();
    e.load_rom(vec![0x12, 0x34]);
    assert_eq!(e.execute_current(), Ok(false));
    assert_eq!(e.get_pc(), 0x234);
}

#[test]
fn skip_if_equal_skips_on_match() {
    let mut e = Emulator::new();
    e.load_rom(vec![0x60, 0x05, 0x30, 0x05]);
    assert_eq!(e.execute_current(), Ok(false));
    assert_eq!(e.execute_current(), Ok(false));
    assert_eq!(e.get_pc(), 0x206);
}

#[test]
fn skip_if_equal_falls_through_on_mismatch() {
    let mut e = Emulator::new();
    e.load_rom(vec![0x60, 0x05, 0x30, 0x06]);
    assert_eq!(e.execute_current(), Ok(false));
    assert_eq!(e.execute_current(), Ok(false));
    assert_eq!(e.get_pc(), 0x204);
}

#[test]
fn skip_if_not_equal_skips_on_mismatch() {
    let mut e = Emulator::new();
    e.load_rom(vec![0x60, 0x05, 0x40, 0x06]);
    assert_eq!(e.execute_current(), Ok(false));
    assert_eq!(e.execute_current(), Ok(false));
    assert_eq!(e.get_pc(), 0x206);
}

#[test]
fn skip_if_not_equal_falls_through_on_match() {
    let mut e = Emulator::new();
    e.load_rom(vec![0x60, 0x05, 0x40, 0x05]);
    assert_eq!(e.execute_current(), Ok(false));
    assert_eq!(e.execute_current(), Ok(false));
    assert_eq!(e.get_pc(), 0x204);
}

#[test]
fn set_index_exact() {
    // set index register to 0x300: expect 0x300 exactly
    let mut e = Emulator::new();
    e.load_rom(vec![0xA3, 0x00]);
    assert_eq!(e.execute_current(), Ok(false));
    assert_eq!(e.get_index(), 0x300);
}

#[test]
fn random_and_respects_mask() {
    let mut e = Emulator::new();
    e.load_rom(vec![0xC5, 0x0F]);
    assert_eq!(e.execute_current(), Ok(false));
    assert_eq!(e.get_register(5) & 0xF0, 0);
}

#[test]
fn random_and_with_zero_mask_is_zero() {
    let mut e = Emulator::new();
    e.load_rom(vec![0x65, 0xAA, 0xC5, 0x00]);
    assert_eq!(e.execute_current(), Ok(false));
    assert_eq!(e.execute_current(), Ok(false));
    assert_eq!(e.get_register(5), 0);
}

#[test]
fn clear_screen_on_prefilled_display() {
    // a single clear instruction on a display pre-filled with all true:
    // reports changed, leaves every cell false
    let mut e = Emulator::new();
    for row in 0..32 {
        for col in 0..64 {
            e.set_pixel(row, col, true);
        }
    }
    e.load_rom(vec![0x00, 0xE0]);
    assert_eq!(e.execute_current(), Ok(true));
    for row in 0..32 {
        for col in 0..64 {
            assert!(!e.pixel(row, col));
        }
    }
}

#[test]
fn clear_screen_reports_changed_when_already_clear() {
    let mut e = Emulator::new();
    e.load_rom(vec![0x00, 0xE0]);
    assert_eq!(e.execute_current(), Ok(true));
    assert_eq!(e.execute(0x00E0), Ok(true));
    for row in 0..32 {
        for col in 0..64 {
            assert!(!e.pixel(row, col));
        }
    }
}

#[test]
fn call_then_return_restores_pc() {
    // call 0x300, whose target holds a return: the pc comes back to the
    // address immediately following the call instruction
    let mut rom = vec![0u8; 0x102];
    rom[0] = 0x23;
    rom[1] = 0x00;
    rom[0x100] = 0x00;
    rom[0x101] = 0xEE;
    let mut e = Emulator::new();
    e.load_rom(rom);
    assert_eq!(e.execute_current(), Ok(false));
    assert_eq!(e.get_pc(), 0x300);
    assert_eq!(e.stack_depth(), 1);
    assert_eq!(e.execute_current(), Ok(false));
    assert_eq!(e.get_pc(), 0x202);
    assert_eq!(e.stack_depth(), 0);
}

#[test]
fn return_on_empty_stack_underflows() {
    let mut e = Emulator::new();
    e.load_rom(vec![0x00, 0xEE]);
    assert_eq!(e.execute_current(), Err(Chip8Error::StackUnderflow));
}

#[test]
fn call_past_ceiling_overflows() {
    // a chain of 17 calls: 16 fill the stack to its ceiling, the 17th fails
    let mut rom = Vec::new();
    for k in 0..17u16 {
        let target = 0x202 + 2 * k;
        rom.push(0x20 | (target >> 8) as u8);
        rom.push((target & 0xFF) as u8);
    }
    let mut e = Emulator::new();
    e.load_rom(rom);
    for _ in 0..16 {
        assert_eq!(e.execute_current(), Ok(false));
    }
    assert_eq!(e.stack_depth(), 16);
    assert_eq!(e.execute_current(), Err(Chip8Error::StackOverflow));
}

#[test]
fn unsupported_opcode_is_reported_with_pc() {
    let mut e = Emulator::new();
    e.load_rom(vec![0xE0, 0xA1]);
    assert_eq!(
        e.execute_current(),
        Err(Chip8Error::UnsupportedOpcode { op: 0xE0A1, at: 0x200 })
    );
}

#[test]
fn fetch_past_memory_bound_is_out_of_bounds() {
    let mut e = Emulator::new();
    e.load_rom(vec![0x1F, 0xFF]);
    assert_eq!(e.execute_current(), Ok(false));
    assert_eq!(e.get_pc(), 0xFFF);
    assert_eq!(e.execute_current(), Err(Chip8Error::OutOfBounds));
}
