use chip8::{Chip8, Instruction, SCREEN_HEIGHT, SCREEN_WIDTH};

fn machine_with(rom: &[u8]) -> Chip8 {
    let mut chip = Chip8::new();
    chip.load_rom(rom);
    chip
}

fn run(chip: &mut Chip8, steps: usize) {
    for _ in 0..steps {
        assert!(chip.can_cycle_now());
        chip.cycle_with_random(0);
    }
}

#[test]
fn new_machine_starts_at_boot_sector() {
    let chip = Chip8::new();
    assert_eq!(chip.get_pc(), 512);
    assert_eq!(chip.get_index(), 0);
    assert_eq!(chip.get_sound_timer(), 0);
    assert_eq!(chip.get_delay_timer(), 0);
    assert_eq!(chip.get_screen_buffer().len(), SCREEN_WIDTH * SCREEN_HEIGHT);
    assert!(chip.get_screen_buffer().iter().all(|&p| p == 0));
    assert_eq!(chip.get_keypad().len(), 16);
    assert!(chip.get_keypad().iter().all(|&k| !k));
    for x in 0..16 {
        assert_eq!(chip.get_register(x), 0);
    }
}

#[test]
fn font_glyphs_are_in_low_memory() {
    // LD F, V0 with V0 = 0 points I at the glyph for 0; read its five rows back.
    let mut chip = machine_with(&[0x60, 0x0A, 0xF0, 0x29, 0xF4, 0x65]);
    run(&mut chip, 3);
    assert_eq!(chip.get_index(), 50 + 5);
    let rows: Vec<u8> = (0..5).map(|i| chip.get_register(i)).collect();
    assert_eq!(rows, vec![0xF0, 0x90, 0xF0, 0x90, 0x90]);
}

#[test]
fn zero_rom_step_is_nop() {
    let mut chip = machine_with(&[0u8; 16]);
    let before: Vec<u8> = chip.get_screen_buffer().to_vec();
    run(&mut chip, 1);
    assert_eq!(chip.get_pc(), 514);
    assert_eq!(chip.get_screen_buffer().to_vec(), before);
    for x in 0..16 {
        assert_eq!(chip.get_register(x), 0);
    }
}

#[test]
fn add_byte_wraps_without_flag() {
    let mut chip = machine_with(&[0x6A, 0xFF, 0x7A, 0x02]);
    run(&mut chip, 2);
    assert_eq!(chip.get_register(0xA), 0x01);
    assert_eq!(chip.get_register(0xF), 0);
}

#[test]
fn add_registers_sets_carry() {
    let mut chip = machine_with(&[0x6A, 0xFF, 0x6B, 0x01, 0x8A, 0xB4]);
    run(&mut chip, 3);
    assert_eq!(chip.get_register(0xA), 0x00);
    assert_eq!(chip.get_register(0xF), 1);
}

#[test]
fn add_registers_without_carry_clears_flag() {
    let mut chip = machine_with(&[0x6F, 0x01, 0x6A, 0x10, 0x6B, 0x20, 0x8A, 0xB4]);
    run(&mut chip, 4);
    assert_eq!(chip.get_register(0xA), 0x30);
    assert_eq!(chip.get_register(0xF), 0);
}

#[test]
fn sub_without_borrow_sets_flag() {
    let mut chip = machine_with(&[0x6A, 0x05, 0x6B, 0x03, 0x8A, 0xB5]);
    run(&mut chip, 3);
    assert_eq!(chip.get_register(0xA), 0x02);
    assert_eq!(chip.get_register(0xF), 1);
}

#[test]
fn sub_with_borrow_clears_flag() {
    let mut chip = machine_with(&[0x6A, 0x03, 0x6B, 0x05, 0x8A, 0xB5]);
    run(&mut chip, 3);
    assert_eq!(chip.get_register(0xA), 0xFE);
    assert_eq!(chip.get_register(0xF), 0);
}

#[test]
fn subn_reverses_operands() {
    let mut chip = machine_with(&[0x6A, 0x03, 0x6B, 0x05, 0x8A, 0xB7]);
    run(&mut chip, 3);
    assert_eq!(chip.get_register(0xA), 0x02);
    assert_eq!(chip.get_register(0xF), 1);
}

#[test]
fn shifts_use_vx_and_ignore_vy() {
    let mut chip = machine_with(&[0x6A, 0x81, 0x6B, 0x00, 0x8A, 0xB6]);
    run(&mut chip, 3);
    assert_eq!(chip.get_register(0xA), 0x40);
    assert_eq!(chip.get_register(0xF), 1);
    let mut chip = machine_with(&[0x6A, 0x81, 0x6B, 0x00, 0x8A, 0xBE]);
    run(&mut chip, 3);
    assert_eq!(chip.get_register(0xA), 0x02);
    assert_eq!(chip.get_register(0xF), 1);
}

#[test]
fn bitwise_operations() {
    let mut chip = machine_with(&[0x61, 0x0C, 0x62, 0x0A, 0x81, 0x21, 0x63, 0x0C, 0x83, 0x22, 0x64, 0x0C, 0x84, 0x23, 0x85, 0x10]);
    run(&mut chip, 8);
    assert_eq!(chip.get_register(1), 0x0E);
    assert_eq!(chip.get_register(3), 0x08);
    assert_eq!(chip.get_register(4), 0x06);
    assert_eq!(chip.get_register(5), 0x0E);
}

#[test]
fn skips_compare_registers_and_bytes() {
    // SE V1, 0 skips; SNE V1, 0 does not; SE V1, V2 skips; SNE V1, V2 does not.
    let mut chip = machine_with(&[0x31, 0x00, 0x00, 0x00, 0x41, 0x00, 0x51, 0x20, 0x00, 0x00, 0x91, 0x20]);
    run(&mut chip, 1);
    assert_eq!(chip.get_pc(), 516);
    run(&mut chip, 1);
    assert_eq!(chip.get_pc(), 518);
    run(&mut chip, 1);
    assert_eq!(chip.get_pc(), 522);
    run(&mut chip, 1);
    assert_eq!(chip.get_pc(), 524);
}

#[test]
fn draw_wraps_along_linear_display() {
    // V0 = 63, V1 = 0, I = 0x20A (the data byte 0xFF), DRW V0 V1 1.
    let mut chip = machine_with(&[0x60, 0x3F, 0x61, 0x00, 0xA2, 0x0A, 0xD0, 0x11, 0xD0, 0x11, 0xFF]);
    run(&mut chip, 4);
    let screen = chip.get_screen_buffer().to_vec();
    assert_eq!(screen[63], 1);
    for col in 0..7 {
        assert_eq!(screen[SCREEN_WIDTH + col], 1);
    }
    assert_eq!(screen[SCREEN_WIDTH + 7], 0);
    assert_eq!(screen.iter().filter(|&&p| p == 1).count(), 8);
    assert_eq!(chip.get_register(0xF), 0);
    run(&mut chip, 1);
    assert!(chip.get_screen_buffer().iter().all(|&p| p == 0));
    assert_eq!(chip.get_register(0xF), 1);
}

#[test]
fn draw_wraps_past_the_last_pixel() {
    // V0 = 60, V1 = 31: the last row; the sprite continues at pixel 0.
    let mut chip = machine_with(&[0x60, 0x3C, 0x61, 0x1F, 0xA2, 0x08, 0xD0, 0x11, 0xFF]);
    run(&mut chip, 4);
    let screen = chip.get_screen_buffer();
    for p in 2044..2048 {
        assert_eq!(screen[p], 1);
    }
    for p in 0..4 {
        assert_eq!(screen[p], 1);
    }
    assert_eq!(screen.iter().filter(|&&p| p == 1).count(), 8);
}

#[test]
fn cls_clears_display() {
    let mut chip = machine_with(&[0x60, 0x05, 0xF0, 0x29, 0xD0, 0x05, 0x00, 0xE0]);
    run(&mut chip, 3);
    assert!(chip.get_screen_buffer().iter().any(|&p| p == 1));
    run(&mut chip, 1);
    let screen = chip.get_screen_buffer();
    assert_eq!(screen.len(), 2048);
    assert!(screen.iter().all(|&p| p == 0));
}

#[test]
fn wait_for_key_repeats_until_pressed() {
    let mut chip = machine_with(&[0xF3, 0x0A]);
    for _ in 0..5 {
        run(&mut chip, 1);
        assert_eq!(chip.get_pc(), 512);
    }
    chip.set_keypress(5);
    run(&mut chip, 1);
    assert_eq!(chip.get_pc(), 514);
    assert_eq!(chip.get_register(3), 5);
}

#[test]
fn wait_for_key_takes_highest_pressed() {
    let mut chip = machine_with(&[0xF3, 0x0A]);
    chip.set_keypress(2);
    chip.set_keypress(9);
    run(&mut chip, 1);
    assert_eq!(chip.get_register(3), 9);
}

#[test]
fn key_skips() {
    let mut chip = machine_with(&[0x61, 0x04, 0xE1, 0x9E, 0x00, 0x00, 0xE1, 0xA1]);
    chip.set_keypress(4);
    run(&mut chip, 2);
    assert_eq!(chip.get_pc(), 518);
    run(&mut chip, 1);
    assert_eq!(chip.get_pc(), 520);
    chip.clear_keypad();
    assert!(chip.get_keypad().iter().all(|&k| !k));
}

#[test]
fn call_and_return() {
    // CALL 206; at 206: RET; back at 202: JP 200 loops.
    let mut chip = machine_with(&[0x22, 0x06, 0x12, 0x00, 0x00, 0x00, 0x00, 0xEE]);
    run(&mut chip, 1);
    assert_eq!(chip.get_pc(), 0x206);
    run(&mut chip, 1);
    assert_eq!(chip.get_pc(), 0x202);
    run(&mut chip, 1);
    assert_eq!(chip.get_pc(), 0x200);
}

#[test]
fn return_with_empty_stack_goes_to_zero() {
    let mut chip = machine_with(&[0x00, 0xEE]);
    run(&mut chip, 1);
    assert_eq!(chip.get_pc(), 0);
}

#[test]
fn call_with_full_stack_is_dropped() {
    // CALL 200 pushes and jumps back here; the 17th call finds the stack full.
    let mut chip = machine_with(&[0x22, 0x00]);
    run(&mut chip, 16);
    assert_eq!(chip.get_pc(), 0x200);
    run(&mut chip, 1);
    assert_eq!(chip.get_pc(), 0x202);
}

#[test]
fn jump_with_offset() {
    let mut chip = machine_with(&[0x60, 0x10, 0xB3, 0x00]);
    run(&mut chip, 2);
    assert_eq!(chip.get_pc(), 0x310);
}

#[test]
fn timers_count_down_to_zero() {
    let mut chip = machine_with(&[0x60, 0x02, 0xF0, 0x15, 0xF0, 0x18, 0xF1, 0x07]);
    run(&mut chip, 3);
    assert_eq!(chip.get_delay_timer(), 2);
    assert_eq!(chip.get_sound_timer(), 2);
    chip.update_timers();
    run(&mut chip, 1);
    assert_eq!(chip.get_register(1), 1);
    chip.update_timers();
    chip.update_timers();
    assert_eq!(chip.get_delay_timer(), 0);
    assert_eq!(chip.get_sound_timer(), 0);
}

#[test]
fn bcd_and_register_block_copies() {
    // V0 = 234, I = 0x300, LD B V0, LD V2 [I].
    let mut chip = machine_with(&[0x60, 0xEA, 0xA3, 0x00, 0xF0, 0x33, 0xF2, 0x65]);
    run(&mut chip, 4);
    assert_eq!(chip.get_register(0), 2);
    assert_eq!(chip.get_register(1), 3);
    assert_eq!(chip.get_register(2), 4);
    assert_eq!(chip.get_index(), 0x303);
}

#[test]
fn store_and_load_registers() {
    // V0..V2 = 7, 8, 9; store at 0x300; clear; reload.
    let mut chip = machine_with(&[
        0x60, 0x07, 0x61, 0x08, 0x62, 0x09, 0xA3, 0x00, 0xF2, 0x55, 0x60, 0x00, 0x61, 0x00,
        0x62, 0x00, 0xA3, 0x00, 0xF2, 0x65,
    ]);
    run(&mut chip, 5);
    assert_eq!(chip.get_index(), 0x303);
    run(&mut chip, 5);
    assert_eq!(chip.get_register(0), 7);
    assert_eq!(chip.get_register(1), 8);
    assert_eq!(chip.get_register(2), 9);
}

#[test]
fn add_to_index() {
    let mut chip = machine_with(&[0xA1, 0x00, 0x65, 0x22, 0xF5, 0x1E]);
    run(&mut chip, 3);
    assert_eq!(chip.get_index(), 0x122);
}

#[test]
fn random_byte_is_masked() {
    let mut chip = machine_with(&[0xC4, 0x0F]);
    chip.cycle_with_random(0xAB);
    assert_eq!(chip.get_register(4), 0x0B);
    let mut chip = machine_with(&[0xC4, 0x0F, 0xC5, 0x00]);
    chip.cycle();
    chip.cycle();
    assert_eq!(chip.get_register(4) & 0xF0, 0);
    assert_eq!(chip.get_register(5), 0);
}

#[test]
fn unknown_opcode_is_a_no_op() {
    let mut chip = machine_with(&[0x5A, 0xB1]);
    run(&mut chip, 1);
    assert_eq!(chip.get_pc(), 514);
}

#[test]
fn execute_decoded_instruction() {
    let mut chip = Chip8::new();
    chip.execute_instruction(Instruction::LdByte { x: 2, kk: 0x42 }, 0);
    assert_eq!(chip.get_register(2), 0x42);
    chip.execute_instruction(Instruction::Jp { nnn: 0x345 }, 0);
    assert_eq!(chip.get_pc(), 0x345);
}

#[test]
fn out_of_bounds_cycle_is_reported() {
    let mut chip = machine_with(&[0x1F, 0xFF]);
    run(&mut chip, 1);
    assert_eq!(chip.get_pc(), 0xFFF);
    assert!(!chip.can_cycle_now());
    let mut chip = machine_with(&[0x61, 0x20, 0xE1, 0x9E]);
    run(&mut chip, 1);
    assert!(!chip.can_cycle_now());
}

#[test]
fn load_rom_fills_program_space() {
    let rom: Vec<u8> = (0..3584).map(|i| (i % 251) as u8).collect();
    let mut chip = Chip8::new();
    chip.load_rom(&rom);
    // JP to the last word of memory would read past it; a plain fetch at 0x200 reads the ROM.
    assert_eq!(chip.get_pc(), 512);
    assert!(chip.can_cycle_now());
}
