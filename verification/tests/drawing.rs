use chip8::Chip8Error;
use chip8::Emulator;

#[test]
fn draw_places_sprite_bits_by_xor() {
    // sprite 0xA0 = bits 1010_0000, drawn at (col 3, row 2)
    let mut rom = vec![0u8; 0x101];
    rom[0] = 0x60;
    rom[1] = 0x03;
    rom[2] = 0x61;
    rom[3] = 0x02;
    rom[4] = 0xA3;
    rom[5] = 0x00;
    rom[6] = 0xD0;
    rom[7] = 0x11;
    rom[0x100] = 0xA0;
    let mut e = Emulator::new();
    e.load_rom(rom);
    assert_eq!(e.execute_current(), Ok(false));
    assert_eq!(e.execute_current(), Ok(false));
    assert_eq!(e.execute_current(), Ok(false));
    assert_eq!(e.execute_current(), Ok(true));
    assert!(e.pixel(2, 3));
    assert!(!e.pixel(2, 4));
    assert!(e.pixel(2, 5));
    for col in 6..64 {
        assert!(!e.pixel(2, col));
    }
    assert!(!e.pixel(1, 3));
    assert!(!e.pixel(3, 3));
    assert_eq!(e.get_register(0xF), 0);
}

#[test]
fn draw_twice_restores_display_and_flags_collision() {
    let mut rom = vec![0u8; 0x101];
    rom[0] = 0x60;
    rom[1] = 0x03;
    rom[2] = 0x61;
    rom[3] = 0x02;
    rom[4] = 0xA3;
    rom[5] = 0x00;
    rom[6] = 0xD0;
    rom[7] = 0x11;
    rom[0x100] = 0xA0;
    let mut e = Emulator::new();
    e.load_rom(rom);
    for _ in 0..4 {
        e.execute_current().unwrap();
    }
    assert_eq!(e.get_register(0xF), 0);
    // the second identical draw toggles every lit pixel off: collision
    assert_eq!(e.execute(0xD011), Ok(true));
    for row in 0..32 {
        for col in 0..64 {
            assert!(!e.pixel(row, col));
        }
    }
    assert_eq!(e.get_register(0xF), 1);
}

#[test]
fn draw_zero_sprite_reports_unchanged() {
    // all sprite bits 0: nothing toggles, changed is false, flag untouched
    let mut e = Emulator::new();
    e.load_rom(vec![0xA3, 0x00, 0xD0, 0x13]);
    assert_eq!(e.execute_current(), Ok(false));
    assert_eq!(e.execute_current(), Ok(false));
    for row in 0..32 {
        for col in 0..64 {
            assert!(!e.pixel(row, col));
        }
    }
    assert_eq!(e.get_register(0xF), 0);
}

#[test]
fn draw_on_lit_cell_reports_changed_and_collision() {
    let mut rom = vec![0u8; 0x101];
    rom[0] = 0xA3;
    rom[1] = 0x00;
    rom[2] = 0xD0;
    rom[3] = 0x11;
    rom[0x100] = 0x80;
    let mut e = Emulator::new();
    e.set_pixel(0, 0, true);
    e.load_rom(rom);
    assert_eq!(e.execute_current(), Ok(false));
    assert_eq!(e.execute_current(), Ok(true));
    assert!(!e.pixel(0, 0));
    assert_eq!(e.get_register(0xF), 1);
}

#[test]
fn draw_position_wraps_modularly() {
    // register x = 67 wraps to column 3; register y = 34 wraps to row 2
    let mut rom = vec![0u8; 0x101];
    rom[0] = 0x60;
    rom[1] = 67;
    rom[2] = 0x61;
    rom[3] = 34;
    rom[4] = 0xA3;
    rom[5] = 0x00;
    rom[6] = 0xD0;
    rom[7] = 0x11;
    rom[0x100] = 0x80;
    let mut e = Emulator::new();
    e.load_rom(rom);
    for _ in 0..4 {
        e.execute_current().unwrap();
    }
    assert!(e.pixel(2, 3));
}

#[test]
fn draw_clips_at_right_and_bottom_edges() {
    // an 8-wide, 3-tall block at (col 60, row 30): only the 4x2 corner lands
    let mut rom = vec![0u8; 0x103];
    rom[0] = 0x60;
    rom[1] = 60;
    rom[2] = 0x61;
    rom[3] = 30;
    rom[4] = 0xA3;
    rom[5] = 0x00;
    rom[6] = 0xD0;
    rom[7] = 0x13;
    rom[0x100] = 0xFF;
    rom[0x101] = 0xFF;
    rom[0x102] = 0xFF;
    let mut e = Emulator::new();
    e.load_rom(rom);
    for _ in 0..4 {
        e.execute_current().unwrap();
    }
    for row in 30..32 {
        for col in 60..64 {
            assert!(e.pixel(row, col));
        }
    }
    // nothing wrapped to the opposite edges
    for row in 0..2 {
        for col in 0..64 {
            assert!(!e.pixel(row, col));
        }
    }
    for row in 0..32 {
        for col in 0..4 {
            assert!(!e.pixel(row, col));
        }
    }
    assert_eq!(e.get_register(0xF), 0);
}

#[test]
fn draw_called_directly_toggles_cells() {
    let mut rom = vec![0u8; 0x101];
    rom[0] = 0xA3;
    rom[1] = 0x00;
    rom[0x100] = 0x80;
    let mut e = Emulator::new();
    e.load_rom(rom);
    assert_eq!(e.execute_current(), Ok(false));
    assert_eq!(e.draw(0, 1, 1), Ok(true));
    assert!(e.pixel(0, 0));
    assert_eq!(e.draw(0, 1, 1), Ok(true));
    assert!(!e.pixel(0, 0));
    assert_eq!(e.get_register(0xF), 1);
}

#[test]
fn draw_reading_past_memory_bound_is_out_of_bounds() {
    let mut e = Emulator::new();
    e.load_rom(vec![0xAF, 0xFF, 0xD0, 0x12]);
    assert_eq!(e.execute_current(), Ok(false));
    assert_eq!(e.execute_current(), Err(Chip8Error::OutOfBounds));
}

#[test]
fn draw_reading_up_to_memory_bound_is_allowed() {
    let mut e = Emulator::new();
    e.load_rom(vec![0xAF, 0xFF, 0xD0, 0x11]);
    assert_eq!(e.execute_current(), Ok(false));
    assert_eq!(e.execute_current(), Ok(false));
}
