use chip8_core::{Emulator, Fault};

fn boot(rom: &[u8]) -> Emulator {
    let mut m = Emulator::new();
    m.load_rom(rom);
    m
}

fn run(m: &mut Emulator, n: usize) {
    for _ in 0..n {
        assert!(m.tick().is_ok());
    }
}

#[test]
fn fresh_machine_state() {
    let m = Emulator::new();
    assert_eq!(m.program_counter(), 0x200);
    assert_eq!(m.index_register(), 0);
    assert_eq!(m.ram_byte(0), 0xF0);
    assert_eq!(m.ram_byte(79), 0x80);
    assert_eq!(m.ram_byte(80), 0);
    assert!(m.get_display().iter().all(|p| !p));
    for r in 0..16 {
        assert_eq!(m.register(r), 0);
    }
    assert!(!m.sound_active());
    assert!(m.draw_completed);
    assert!(!m.is_key_pressed());
    assert_eq!(m.waiting_key(), None);
}

#[test]
fn reset_restores_fresh_state() {
    let mut m = boot(&[0x6A, 0x2B, 0xFA, 0x18, 0xD0, 0x05]);
    run(&mut m, 3);
    m.keypress(4, true);
    m.reset();
    assert_eq!(m.program_counter(), 0x200);
    assert_eq!(m.register(0xA), 0);
    assert_eq!(m.ram_byte(0x200), 0);
    assert_eq!(m.ram_byte(0), 0xF0);
    assert!(m.get_display().iter().all(|p| !p));
    assert!(!m.sound_active());
    assert!(!m.is_key_pressed());
    assert!(m.draw_completed);
    assert_eq!(m.waiting_key(), None);
}

#[test]
fn clear_then_draw_without_collision() {
    // Clear, point I at the glyph for 0, draw its five rows at (0, 0).
    let mut m = boot(&[0x00, 0xE0, 0xA0, 0x00, 0x6A, 0x00, 0x6B, 0x00, 0xDA, 0xB5]);
    run(&mut m, 5);
    assert_eq!(m.register(0xF), 0);
    assert!(!m.draw_completed);
    let disp = m.get_display();
    // First glyph row is 0xF0: the four leftmost cells of row 0 are set.
    assert!(disp[0] && disp[1] && disp[2] && disp[3]);
    assert!(!disp[4]);
}

#[test]
fn drawing_twice_restores_and_collides() {
    let mut m = boot(&[0xA0, 0x00, 0x6A, 0x00, 0x6B, 0x00, 0xDA, 0xB5, 0xDA, 0xB5]);
    run(&mut m, 4);
    assert_eq!(m.register(0xF), 0);
    run(&mut m, 1);
    assert_eq!(m.register(0xF), 1);
    assert!(m.get_display().iter().all(|p| !p));
}

#[test]
fn sprites_clip_at_the_right_edge() {
    // Store 0xFF at 0x300, then draw that single row at x = 62.
    let mut m = boot(&[
        0x60, 0xFF, 0xA3, 0x00, 0xF0, 0x55, 0xA3, 0x00, 0x6A, 0x3E, 0x6B, 0x00, 0xDA, 0xB1,
    ]);
    run(&mut m, 7);
    let disp = m.get_display();
    assert!(disp[62] && disp[63]);
    // Nothing wrapped onto the next row.
    assert!(!disp[64] && !disp[65]);
    assert_eq!(m.register(0xF), 0);
}

#[test]
fn key_wait_round_trip() {
    let mut m = boot(&[0xF5, 0x0A, 0x6B, 0x09]);
    // No key down: the instruction rewinds over itself.
    run(&mut m, 1);
    assert_eq!(m.program_counter(), 0x200);
    assert_eq!(m.waiting_key(), None);
    // Press key 3: the next step latches it and records it in V5.
    m.keypress(3, true);
    run(&mut m, 1);
    assert_eq!(m.register(5), 3);
    assert_eq!(m.waiting_key(), Some(3));
    assert_eq!(m.program_counter(), 0x202);
    // While latched, stepping is suspended entirely.
    run(&mut m, 2);
    assert_eq!(m.program_counter(), 0x202);
    assert_eq!(m.register(0xB), 0);
    // Releasing another key changes nothing; releasing key 3 resumes.
    m.keypress(7, false);
    assert_eq!(m.waiting_key(), Some(3));
    m.keypress(3, false);
    assert_eq!(m.waiting_key(), None);
    run(&mut m, 1);
    assert_eq!(m.register(0xB), 9);
    assert_eq!(m.program_counter(), 0x204);
}

#[test]
fn key_wait_picks_lowest_pressed_key() {
    let mut m = boot(&[0xF5, 0x0A]);
    m.keypress(9, true);
    m.keypress(2, true);
    run(&mut m, 1);
    assert_eq!(m.register(5), 2);
    assert_eq!(m.waiting_key(), Some(2));
}

#[test]
fn timers_never_underflow() {
    let mut m = Emulator::new();
    for _ in 0..5 {
        m.tick_timers();
    }
    assert_eq!(m.delay_timer(), 0);
    assert!(!m.sound_active());

    let mut m = boot(&[0x6A, 0x02, 0xFA, 0x15]);
    run(&mut m, 2);
    assert_eq!(m.delay_timer(), 2);
    for _ in 0..5 {
        m.tick_timers();
    }
    assert_eq!(m.delay_timer(), 0);
}

#[test]
fn key_matrix_reports_presses() {
    let mut m = Emulator::new();
    m.keypress(4, true);
    assert!(m.is_key_pressed());
    m.keypress(4, false);
    assert!(!m.is_key_pressed());
}

#[test]
fn skip_on_key_state() {
    let mut m = boot(&[0x6A, 0x04, 0xEA, 0x9E, 0x00, 0x00, 0xEA, 0xA1]);
    m.keypress(4, true);
    run(&mut m, 2);
    // Key 4 down: Ex9E skipped one instruction.
    assert_eq!(m.program_counter(), 0x206);
    run(&mut m, 1);
    // Key 4 still down: ExA1 does not skip.
    assert_eq!(m.program_counter(), 0x208);
}

#[test]
fn push_and_pop_are_inverse() {
    let mut m = Emulator::new();
    m.push(0x234);
    m.push(0x456);
    assert_eq!(m.pop(), 0x456);
    assert_eq!(m.pop(), 0x234);
}

#[test]
fn fetch_beyond_memory_is_fatal() {
    // Jump to the very last byte of memory, then try to fetch there.
    let mut m = boot(&[0x1F, 0xFF]);
    run(&mut m, 1);
    assert_eq!(m.program_counter(), 0xFFF);
    assert_eq!(m.tick(), Err(Fault::MemoryOutOfBounds));
    assert_eq!(m.program_counter(), 0xFFF);
}

#[test]
fn drawing_from_the_end_of_memory_is_fatal() {
    let mut m = boot(&[0xAF, 0xFF, 0x6A, 0x00, 0xDA, 0xA2]);
    run(&mut m, 2);
    assert_eq!(m.tick(), Err(Fault::MemoryOutOfBounds));
}

#[test]
fn bulk_store_beyond_memory_is_fatal() {
    let mut m = boot(&[0xAF, 0xFE, 0xF2, 0x55]);
    run(&mut m, 1);
    assert_eq!(m.tick(), Err(Fault::MemoryOutOfBounds));
}

#[test]
fn largest_rom_fills_memory_to_the_end() {
    let rom: Vec<u8> = (0..3584usize).map(|i| (i % 251) as u8).collect();
    let mut m = Emulator::new();
    m.load_rom(&rom);
    assert_eq!(m.ram_byte(0x200), 0);
    assert_eq!(m.ram_byte(0xFFF), (3583usize % 251) as u8);
}

#[test]
fn sprites_clip_at_the_bottom_edge() {
    // Two rows of 0x80 stored at 0x300, drawn at (0, 31): only the first
    // row lands on screen.
    let mut m = boot(&[
        0x60, 0x80, 0x61, 0x80, 0xA3, 0x00, 0xF1, 0x55, 0xA3, 0x00, 0x6A, 0x00, 0x6B, 0x1F,
        0xDA, 0xB2,
    ]);
    run(&mut m, 8);
    let disp = m.get_display();
    assert!(disp[31 * 64]);
    assert!(!disp[0]);
    assert_eq!(m.register(0xF), 0);
}

#[test]
fn zero_row_draw_touches_nothing() {
    let mut m = boot(&[0xAF, 0xFF, 0xDA, 0xB0]);
    run(&mut m, 2);
    assert_eq!(m.register(0xF), 0);
    assert!(!m.draw_completed);
    assert!(m.get_display().iter().all(|p| !p));
}
