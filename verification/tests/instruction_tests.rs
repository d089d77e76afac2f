use chip8_core::{Emulator, Fault};

/// A fresh machine with `rom` loaded at the start address.
fn boot(rom: &[u8]) -> Emulator {
    let mut m = Emulator::new();
    m.load_rom(rom);
    m
}

/// Run `n` instructions, asserting that each one succeeds.
fn run(m: &mut Emulator, n: usize) {
    for _ in 0..n {
        assert!(m.tick().is_ok());
    }
}

#[test]
fn load_register_round_trip() {
    let mut m = boot(&[0x6A, 0x2B]);
    run(&mut m, 1);
    assert_eq!(m.register(0xA), 0x2B);
    assert_eq!(m.program_counter(), 0x202);
}

#[test]
fn add_with_carry() {
    let mut m = boot(&[0x6A, 0xFA, 0x6B, 0x0A, 0x8A, 0xB4]);
    run(&mut m, 3);
    assert_eq!(m.register(0xA), 4);
    assert_eq!(m.register(0xF), 1);

    let mut m = boot(&[0x6A, 0x0A, 0x6B, 0x05, 0x8A, 0xB4]);
    run(&mut m, 3);
    assert_eq!(m.register(0xA), 15);
    assert_eq!(m.register(0xF), 0);
}

#[test]
fn add_immediate_wraps_without_flag() {
    let mut m = boot(&[0x6A, 0xFF, 0x6F, 0x77, 0x7A, 0x02]);
    run(&mut m, 3);
    assert_eq!(m.register(0xA), 1);
    assert_eq!(m.register(0xF), 0x77);
}

#[test]
fn subtract_with_borrow() {
    let mut m = boot(&[0x6A, 0x05, 0x6B, 0x0A, 0x8A, 0xB5]);
    run(&mut m, 3);
    assert_eq!(m.register(0xA), 251);
    assert_eq!(m.register(0xF), 0);

    let mut m = boot(&[0x6A, 0x0A, 0x6B, 0x05, 0x8A, 0xB5]);
    run(&mut m, 3);
    assert_eq!(m.register(0xA), 5);
    assert_eq!(m.register(0xF), 1);
}

#[test]
fn subtract_reversed() {
    // 8xy7: Vx = Vy - Vx; 20 - 6 = 14, no borrow.
    let mut m = boot(&[0x6A, 0x06, 0x6B, 0x14, 0x8A, 0xB7]);
    run(&mut m, 3);
    assert_eq!(m.register(0xA), 14);
    assert_eq!(m.register(0xF), 1);
}

#[test]
fn shift_right_flags_old_low_bit() {
    let mut m = boot(&[0x6A, 0x03, 0x6B, 0x08, 0x8A, 0xB6]);
    run(&mut m, 3);
    assert_eq!(m.register(0xF), 1);
    assert_eq!(m.register(0xA), 4);
}

#[test]
fn shift_left_flags_high_bit() {
    let mut m = boot(&[0x6B, 0x81, 0x8A, 0xBE]);
    run(&mut m, 2);
    assert_eq!(m.register(0xA), 0x02);
    assert_eq!(m.register(0xF), 1);
}

#[test]
fn logic_ops_reset_flag() {
    let mut m = boot(&[0x6F, 0x33, 0x6A, 0x0C, 0x6B, 0x0A, 0x8A, 0xB1]);
    run(&mut m, 4);
    assert_eq!(m.register(0xA), 0x0E);
    assert_eq!(m.register(0xF), 0);

    let mut m = boot(&[0x6A, 0x0C, 0x6B, 0x0A, 0x8A, 0xB2]);
    run(&mut m, 3);
    assert_eq!(m.register(0xA), 0x08);
    assert_eq!(m.register(0xF), 0);

    let mut m = boot(&[0x6A, 0x0C, 0x6B, 0x0A, 0x8A, 0xB3]);
    run(&mut m, 3);
    assert_eq!(m.register(0xA), 0x06);
    assert_eq!(m.register(0xF), 0);
}

#[test]
fn copy_register() {
    let mut m = boot(&[0x6B, 0x5A, 0x8A, 0xB0]);
    run(&mut m, 2);
    assert_eq!(m.register(0xA), 0x5A);
}

#[test]
fn jump_sets_counter() {
    let mut m = boot(&[0x12, 0x06]);
    run(&mut m, 1);
    assert_eq!(m.program_counter(), 0x206);
}

#[test]
fn jump_with_offset() {
    let mut m = boot(&[0x60, 0x05, 0xB2, 0x06]);
    run(&mut m, 2);
    assert_eq!(m.program_counter(), 0x20B);
}

#[test]
fn call_and_return() {
    // 0x200: call 0x204; 0x202: anything; 0x204: return.
    let mut m = boot(&[0x22, 0x04, 0x00, 0x00, 0x00, 0xEE]);
    run(&mut m, 1);
    assert_eq!(m.program_counter(), 0x204);
    run(&mut m, 1);
    assert_eq!(m.program_counter(), 0x202);
}

#[test]
fn skip_if_equal_immediate() {
    let mut m = boot(&[0x6A, 0x07, 0x3A, 0x07]);
    run(&mut m, 2);
    assert_eq!(m.program_counter(), 0x206);

    let mut m = boot(&[0x6A, 0x07, 0x3A, 0x08]);
    run(&mut m, 2);
    assert_eq!(m.program_counter(), 0x204);
}

#[test]
fn skip_if_unequal_immediate() {
    let mut m = boot(&[0x6A, 0x07, 0x4A, 0x08]);
    run(&mut m, 2);
    assert_eq!(m.program_counter(), 0x206);

    let mut m = boot(&[0x6A, 0x07, 0x4A, 0x07]);
    run(&mut m, 2);
    assert_eq!(m.program_counter(), 0x204);
}

#[test]
fn skip_on_register_compare() {
    let mut m = boot(&[0x6A, 0x07, 0x6B, 0x07, 0x5A, 0xB0]);
    run(&mut m, 3);
    assert_eq!(m.program_counter(), 0x208);

    let mut m = boot(&[0x6A, 0x07, 0x6B, 0x08, 0x9A, 0xB0]);
    run(&mut m, 3);
    assert_eq!(m.program_counter(), 0x208);
}

#[test]
fn random_byte_is_masked() {
    // Cx00 masks the random byte with 0: the result is always 0.
    let mut m = boot(&[0x6A, 0x55, 0xCA, 0x00]);
    run(&mut m, 2);
    assert_eq!(m.register(0xA), 0);
    // CxFF stays within the register and the machine keeps running.
    let mut m = boot(&[0xCA, 0xFF, 0x6B, 0x01]);
    run(&mut m, 2);
    assert_eq!(m.register(0xB), 1);
}

#[test]
fn index_register_ops() {
    let mut m = boot(&[0xA1, 0x23]);
    run(&mut m, 1);
    assert_eq!(m.index_register(), 0x123);

    // Fx1E adds Vx to I.
    let mut m = boot(&[0xA1, 0x23, 0x6A, 0x02, 0xFA, 0x1E]);
    run(&mut m, 3);
    assert_eq!(m.index_register(), 0x125);

    // Fx29 points I at the five-byte glyph for digit Vx.
    let mut m = boot(&[0x6A, 0x07, 0xFA, 0x29]);
    run(&mut m, 2);
    assert_eq!(m.index_register(), 35);
}

#[test]
fn bcd_digits() {
    let mut m = boot(&[0x6A, 0x9D, 0xA3, 0x00, 0xFA, 0x33]);
    run(&mut m, 3);
    assert_eq!(m.ram_byte(0x300), 1);
    assert_eq!(m.ram_byte(0x301), 5);
    assert_eq!(m.ram_byte(0x302), 7);
    assert_eq!(m.index_register(), 0x300);
}

#[test]
fn bulk_store_load_round_trip() {
    let mut m = boot(&[
        0x60, 0x11, 0x61, 0x22, 0x62, 0x33, // V0..V2
        0xA3, 0x00, 0xF2, 0x55, // store V0..V2 at 0x300
        0x60, 0x00, 0x61, 0x00, 0x62, 0x00, // clobber them
        0xA3, 0x00, 0xF2, 0x65, // load them back
    ]);
    run(&mut m, 5);
    assert_eq!(m.index_register(), 0x303);
    assert_eq!(m.ram_byte(0x300), 0x11);
    assert_eq!(m.ram_byte(0x301), 0x22);
    assert_eq!(m.ram_byte(0x302), 0x33);
    run(&mut m, 5);
    assert_eq!(m.register(0), 0x11);
    assert_eq!(m.register(1), 0x22);
    assert_eq!(m.register(2), 0x33);
    assert_eq!(m.index_register(), 0x303);
}

#[test]
fn timer_instructions() {
    let mut m = boot(&[0x6A, 0x07, 0xFA, 0x15, 0xFA, 0x18, 0xFB, 0x07]);
    run(&mut m, 4);
    assert_eq!(m.register(0xB), 7);
    assert!(m.sound_active());
    for _ in 0..7 {
        m.tick_timers();
    }
    assert_eq!(m.delay_timer(), 0);
    assert!(!m.sound_active());
}

#[test]
fn unknown_opcode_is_fatal() {
    let mut m = boot(&[0x80, 0x08]);
    assert_eq!(m.tick(), Err(Fault::UnknownOpcode(0x8008)));
    // The fault left the machine untouched: the counter did not move.
    assert_eq!(m.program_counter(), 0x200);
}

#[test]
fn return_with_empty_stack_is_fatal() {
    let mut m = boot(&[0x00, 0xEE]);
    assert_eq!(m.tick(), Err(Fault::StackUnderflow));
    assert_eq!(m.program_counter(), 0x200);
}

#[test]
fn seventeenth_call_overflows_stack() {
    // Seventeen calls, each to the next instruction: sixteen fill the
    // stack, the seventeenth has no slot left.
    let mut rom: Vec<u8> = Vec::new();
    for j in 0..17u16 {
        let target = 0x202 + 2 * j;
        rom.push(0x20 | (target >> 8) as u8);
        rom.push((target & 0xFF) as u8);
    }
    let mut m = boot(&rom);
    for _ in 0..16 {
        assert!(m.tick().is_ok());
    }
    assert_eq!(m.tick(), Err(Fault::StackOverflow));
}

#[test]
fn bcd_near_end_of_memory_is_fatal() {
    let mut m = boot(&[0xAF, 0xFF, 0xFA, 0x33]);
    run(&mut m, 1);
    assert_eq!(m.tick(), Err(Fault::MemoryOutOfBounds));
}

#[test]
fn key_test_with_wild_register_is_fatal() {
    let mut m = boot(&[0x6A, 0xFF, 0xEA, 0x9E]);
    run(&mut m, 1);
    assert_eq!(m.tick(), Err(Fault::KeyOutOfRange));
}
