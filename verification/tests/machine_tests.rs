use chip8::errors::Chip8Error;
use chip8::machine::{Chip8, Mode};

fn load(bytes: Vec<u8>) -> Chip8 {
    let mut c8 = Chip8::new();
    c8.load_program(&bytes).unwrap();
    c8
}

#[test]
fn new_initial_state() {
    let c8 = Chip8::new();
    assert_eq!(c8.program_counter, 0x200);
    assert_eq!(c8.index_register, 0);
    assert_eq!(c8.current_opcode, 0);
    assert_eq!(c8.delay_timer, 0);
    assert_eq!(c8.sound_timer, 0);
    assert_eq!(c8.stack.len(), 0);
    assert!(matches!(c8.mode, Mode::Running));
    assert_eq!(c8.memory.len(), 4096);
    assert!(c8.screen.iter().all(|&p| p == 0));
    assert!(c8.keys.iter().all(|&k| k == 0));
    assert!(c8.registers.iter().all(|&v| v == 0));
    // the first and last font glyph bytes
    assert_eq!(c8.memory[0x50], 0xF0);
    assert_eq!(c8.memory[0x51], 0x90);
    assert_eq!(c8.memory[0x9F], 0x80);
    // memory outside the font region is zero
    assert_eq!(c8.memory[0x4F], 0);
    assert_eq!(c8.memory[0xA0], 0);
}

#[test]
fn load_places_bytes_and_keeps_font() {
    let c8 = load(vec![1, 2, 3]);
    assert_eq!(c8.memory[0x200], 1);
    assert_eq!(c8.memory[0x201], 2);
    assert_eq!(c8.memory[0x202], 3);
    assert_eq!(c8.memory[0x203], 0);
    assert_eq!(c8.memory[0x50], 0xF0);
    assert_eq!(c8.memory[0x9F], 0x80);
}

#[test]
fn load_too_large_is_rejected() {
    let mut c8 = Chip8::new();
    let big = vec![7u8; 4096 - 0x200 + 1];
    assert_eq!(c8.load_program(&big), Err(Chip8Error::MemoryOutOfBounds));
    // nothing was written
    assert_eq!(c8.memory[0x200], 0);
    // an image that exactly fits is accepted
    let exact = vec![7u8; 4096 - 0x200];
    assert_eq!(c8.load_program(&exact), Ok(()));
    assert_eq!(c8.memory[4095], 7);
}

#[test]
fn fetch_out_of_bounds_fails() {
    let mut c8 = Chip8::new();
    c8.program_counter = 4095;
    assert_eq!(c8.step(), Err(Chip8Error::MemoryOutOfBounds));
    assert_eq!(c8.program_counter, 4095);
}

#[test]
fn set_add_scenario() {
    // set V0 = 10; set V1 = 5; V0 = V0 + V1
    let mut c8 = load(vec![0x60, 0x0A, 0x61, 0x05, 0x80, 0x14]);
    c8.step().unwrap();
    c8.step().unwrap();
    c8.step().unwrap();
    assert_eq!(c8.registers[0], 15);
    assert_eq!(c8.registers[15], 0);
    assert_eq!(c8.program_counter, 0x206);
}

#[test]
fn set_then_add_one_wraps() {
    let mut c8 = load(vec![0x60, 0xFF, 0x70, 0x01]);
    c8.step().unwrap();
    c8.step().unwrap();
    assert_eq!(c8.registers[0], 0);
    assert_eq!(c8.registers[15], 0);
}

#[test]
fn call_and_return() {
    // call 0x204; the word there returns
    let mut c8 = load(vec![0x22, 0x04, 0x00, 0x00, 0x00, 0xEE]);
    c8.step().unwrap();
    assert_eq!(c8.program_counter, 0x204);
    assert_eq!(c8.stack.len(), 1);
    assert_eq!(*c8.stack.get(0), 0x202);
    c8.step().unwrap();
    assert_eq!(c8.program_counter, 0x202);
    assert_eq!(c8.stack.len(), 0);
}

#[test]
fn return_on_empty_stack_underflows() {
    let mut c8 = load(vec![0x00, 0xEE]);
    assert_eq!(c8.step(), Err(Chip8Error::StackUnderflow));
}

#[test]
fn call_past_capacity_overflows() {
    // a subroutine that calls itself forever
    let mut c8 = load(vec![0x22, 0x00]);
    for _ in 0..16 {
        assert_eq!(c8.step(), Ok(()));
    }
    assert_eq!(c8.stack.len(), 16);
    assert_eq!(c8.step(), Err(Chip8Error::StackOverflow));
    assert_eq!(c8.stack.len(), 16);
}

#[test]
fn bcd_scenario() {
    // V0 = 234; I = 0x300; store the decimal digits of V0
    let mut c8 = load(vec![0x60, 0xEA, 0xA3, 0x00, 0xF0, 0x33]);
    c8.step().unwrap();
    c8.step().unwrap();
    c8.step().unwrap();
    assert_eq!(c8.memory[0x300], 2);
    assert_eq!(c8.memory[0x301], 3);
    assert_eq!(c8.memory[0x302], 4);
}

#[test]
fn bcd_of_zero() {
    let mut c8 = load(vec![0xA3, 0x00, 0xF0, 0x33]);
    c8.step().unwrap();
    c8.step().unwrap();
    assert_eq!(&c8.memory[0x300..0x303], &[0, 0, 0]);
}

#[test]
fn bcd_out_of_bounds() {
    let mut c8 = load(vec![0xAF, 0xFF, 0xF0, 0x33]);
    c8.step().unwrap();
    assert_eq!(c8.step(), Err(Chip8Error::MemoryOutOfBounds));
}

#[test]
fn jump_sets_pc() {
    let mut c8 = load(vec![0x13, 0x00]);
    c8.step().unwrap();
    assert_eq!(c8.program_counter, 0x300);
}

#[test]
fn jump_with_offset() {
    let mut c8 = load(vec![0xB3, 0x00]);
    c8.registers[0] = 4;
    c8.step().unwrap();
    assert_eq!(c8.program_counter, 0x304);
}

#[test]
fn skip_if_equal_immediate() {
    let mut c8 = load(vec![0x30, 0x05]);
    c8.registers[0] = 5;
    c8.step().unwrap();
    assert_eq!(c8.program_counter, 0x204);

    let mut c8 = load(vec![0x30, 0x05]);
    c8.registers[0] = 6;
    c8.step().unwrap();
    assert_eq!(c8.program_counter, 0x202);
}

#[test]
fn skip_if_not_equal_immediate() {
    let mut c8 = load(vec![0x40, 0x05]);
    c8.registers[0] = 6;
    c8.step().unwrap();
    assert_eq!(c8.program_counter, 0x204);

    let mut c8 = load(vec![0x40, 0x05]);
    c8.registers[0] = 5;
    c8.step().unwrap();
    assert_eq!(c8.program_counter, 0x202);
}

#[test]
fn skip_if_registers_equal() {
    let mut c8 = load(vec![0x50, 0x10]);
    c8.registers[0] = 9;
    c8.registers[1] = 9;
    c8.step().unwrap();
    assert_eq!(c8.program_counter, 0x204);

    let mut c8 = load(vec![0x50, 0x10]);
    c8.registers[0] = 9;
    c8.registers[1] = 8;
    c8.step().unwrap();
    assert_eq!(c8.program_counter, 0x202);
}

#[test]
fn skip_if_registers_differ() {
    let mut c8 = load(vec![0x90, 0x10]);
    c8.registers[0] = 9;
    c8.registers[1] = 8;
    c8.step().unwrap();
    assert_eq!(c8.program_counter, 0x204);

    let mut c8 = load(vec![0x90, 0x10]);
    c8.registers[0] = 9;
    c8.registers[1] = 9;
    c8.step().unwrap();
    assert_eq!(c8.program_counter, 0x202);
}

#[test]
fn alu_assign_or_and_xor() {
    let mut c8 = load(vec![0x81, 0x00]);
    c8.registers[0] = 0x0F;
    c8.registers[1] = 0xF0;
    c8.step().unwrap();
    assert_eq!(c8.registers[1], 0x0F);

    let mut c8 = load(vec![0x80, 0x11, 0x80, 0x12, 0x80, 0x13]);
    c8.registers[0] = 0b1100;
    c8.registers[1] = 0b1010;
    c8.step().unwrap();
    assert_eq!(c8.registers[0], 0b1110);
    c8.registers[0] = 0b1100;
    c8.step().unwrap();
    assert_eq!(c8.registers[0], 0b1000);
    c8.registers[0] = 0b1100;
    c8.step().unwrap();
    assert_eq!(c8.registers[0], 0b0110);
}

#[test]
fn alu_add_sets_carry_iff_sum_exceeds_byte() {
    let mut c8 = load(vec![0x80, 0x14]);
    c8.registers[0] = 200;
    c8.registers[1] = 100;
    c8.step().unwrap();
    assert_eq!(c8.registers[0], 44);
    assert_eq!(c8.registers[15], 1);

    let mut c8 = load(vec![0x80, 0x14]);
    c8.registers[0] = 200;
    c8.registers[1] = 55;
    c8.step().unwrap();
    assert_eq!(c8.registers[0], 255);
    assert_eq!(c8.registers[15], 0);
}

#[test]
fn alu_sub_sets_flag_iff_no_borrow() {
    let mut c8 = load(vec![0x80, 0x15]);
    c8.registers[0] = 10;
    c8.registers[1] = 5;
    c8.step().unwrap();
    assert_eq!(c8.registers[0], 5);
    assert_eq!(c8.registers[15], 1);

    let mut c8 = load(vec![0x80, 0x15]);
    c8.registers[0] = 5;
    c8.registers[1] = 10;
    c8.step().unwrap();
    assert_eq!(c8.registers[0], 251);
    assert_eq!(c8.registers[15], 0);

    // equal operands count as "no borrow"
    let mut c8 = load(vec![0x80, 0x15]);
    c8.registers[0] = 7;
    c8.registers[1] = 7;
    c8.step().unwrap();
    assert_eq!(c8.registers[0], 0);
    assert_eq!(c8.registers[15], 1);
}

#[test]
fn alu_reverse_sub() {
    let mut c8 = load(vec![0x80, 0x17]);
    c8.registers[0] = 5;
    c8.registers[1] = 10;
    c8.step().unwrap();
    assert_eq!(c8.registers[0], 5);
    assert_eq!(c8.registers[15], 1);

    let mut c8 = load(vec![0x80, 0x17]);
    c8.registers[0] = 10;
    c8.registers[1] = 5;
    c8.step().unwrap();
    assert_eq!(c8.registers[0], 251);
    assert_eq!(c8.registers[15], 0);
}

#[test]
fn alu_shifts() {
    let mut c8 = load(vec![0x80, 0x16]);
    c8.registers[0] = 5;
    c8.step().unwrap();
    assert_eq!(c8.registers[0], 2);
    assert_eq!(c8.registers[15], 1);

    let mut c8 = load(vec![0x80, 0x1E]);
    c8.registers[0] = 0x81;
    c8.step().unwrap();
    assert_eq!(c8.registers[0], 0x02);
    assert_eq!(c8.registers[15], 1);

    let mut c8 = load(vec![0x80, 0x1E]);
    c8.registers[0] = 0x41;
    c8.step().unwrap();
    assert_eq!(c8.registers[0], 0x82);
    assert_eq!(c8.registers[15], 0);
}

#[test]
fn unknown_opcodes_are_decode_errors() {
    for program in [
        vec![0x00u8, 0x00],
        vec![0x80, 0x08],
        vec![0xE0, 0x55],
        vec![0xF0, 0xFF],
    ] {
        let mut c8 = load(program);
        assert_eq!(c8.step(), Err(Chip8Error::DecodeError));
        // the latch and the advanced counter remain; nothing else moved
        assert_eq!(c8.program_counter, 0x202);
    }
}

#[test]
fn set_index_register() {
    let mut c8 = load(vec![0xA1, 0x23]);
    c8.step().unwrap();
    assert_eq!(c8.index_register, 0x123);
}

#[test]
fn add_to_index_register() {
    let mut c8 = load(vec![0xA1, 0x00, 0xF0, 0x1E]);
    c8.registers[0] = 0x34;
    c8.step().unwrap();
    c8.step().unwrap();
    assert_eq!(c8.index_register, 0x134);
}

#[test]
fn font_lookup() {
    let mut c8 = load(vec![0xF0, 0x29]);
    c8.registers[0] = 3;
    c8.step().unwrap();
    assert_eq!(c8.index_register, 0x50 + 15);
}

#[test]
fn timers_set_and_read() {
    // V0 = 5; delay = V0; V1 = delay
    let mut c8 = load(vec![0x60, 0x05, 0xF0, 0x15, 0xF1, 0x07]);
    c8.step().unwrap();
    c8.step().unwrap();
    // the timer was set to 5, then ticked once within the same step
    assert_eq!(c8.delay_timer, 4);
    c8.step().unwrap();
    assert_eq!(c8.registers[1], 4);
    assert_eq!(c8.delay_timer, 3);
}

#[test]
fn sound_timer_set_and_floor() {
    let mut c8 = load(vec![0x60, 0x01, 0xF0, 0x18, 0x61, 0x00, 0x61, 0x00]);
    c8.step().unwrap();
    c8.step().unwrap();
    // set to 1, ticked to 0
    assert_eq!(c8.sound_timer, 0);
    c8.step().unwrap();
    // floored at zero, never wraps
    assert_eq!(c8.sound_timer, 0);
}

#[test]
fn store_and_load_register_block() {
    let mut c8 = load(vec![0xA4, 0x00, 0xF2, 0x55, 0x60, 0x00, 0x61, 0x00, 0x62, 0x00, 0xF2, 0x65]);
    c8.registers[0] = 11;
    c8.registers[1] = 22;
    c8.registers[2] = 33;
    c8.registers[3] = 44;
    c8.step().unwrap();
    c8.step().unwrap();
    assert_eq!(&c8.memory[0x400..0x404], &[11, 22, 33, 0]);
    // zero the registers, then load them back
    c8.step().unwrap();
    c8.step().unwrap();
    c8.step().unwrap();
    assert_eq!(c8.registers[0], 0);
    c8.step().unwrap();
    assert_eq!(c8.registers[0], 11);
    assert_eq!(c8.registers[1], 22);
    assert_eq!(c8.registers[2], 33);
    // V3 was not part of the block and keeps its value
    assert_eq!(c8.registers[3], 44);
}

#[test]
fn register_block_out_of_bounds() {
    let mut c8 = load(vec![0xAF, 0xFF, 0xF2, 0x55]);
    c8.step().unwrap();
    assert_eq!(c8.step(), Err(Chip8Error::MemoryOutOfBounds));
    let mut c8 = load(vec![0xAF, 0xFF, 0xF2, 0x65]);
    c8.step().unwrap();
    assert_eq!(c8.step(), Err(Chip8Error::MemoryOutOfBounds));
}

#[test]
fn masked_random_stays_inside_mask() {
    let mut c8 = load(vec![0xC0, 0x0F]);
    c8.step().unwrap();
    assert_eq!(c8.registers[0] & 0xF0, 0);
}

#[test]
fn masked_random_deterministic_core() {
    let mut c8 = Chip8::new();
    c8.current_opcode = 0xC00F;
    chip8::opcodes::opc000_with(&mut c8, 0xAB);
    assert_eq!(c8.registers[0], 0x0B);
    c8.current_opcode = 0xC1FF;
    chip8::opcodes::opc000_with(&mut c8, 0x5C);
    assert_eq!(c8.registers[1], 0x5C);
}

#[test]
fn key_skip_instructions() {
    // EX9E skips when the key in VX is pressed
    let mut c8 = load(vec![0xE0, 0x9E]);
    c8.registers[0] = 3;
    c8.set_key(3, true);
    c8.step().unwrap();
    assert_eq!(c8.program_counter, 0x204);

    let mut c8 = load(vec![0xE0, 0x9E]);
    c8.registers[0] = 3;
    c8.step().unwrap();
    assert_eq!(c8.program_counter, 0x202);

    // EXA1 skips when it is not pressed
    let mut c8 = load(vec![0xE0, 0xA1]);
    c8.registers[0] = 3;
    c8.step().unwrap();
    assert_eq!(c8.program_counter, 0x204);

    let mut c8 = load(vec![0xE0, 0xA1]);
    c8.registers[0] = 3;
    c8.set_key(3, true);
    c8.step().unwrap();
    assert_eq!(c8.program_counter, 0x202);
}

#[test]
fn key_index_out_of_range() {
    let mut c8 = load(vec![0xE0, 0x9E]);
    c8.registers[0] = 20;
    assert_eq!(c8.step(), Err(Chip8Error::MemoryOutOfBounds));
}

#[test]
fn key_wait_suspends_and_resumes() {
    let mut c8 = load(vec![0xF5, 0x0A, 0x61, 0x07]);
    c8.delay_timer = 3;
    c8.step().unwrap();
    assert!(matches!(c8.mode, Mode::AwaitingKey(5)));
    assert_eq!(c8.program_counter, 0x202);
    assert_eq!(c8.delay_timer, 2);
    // no key pressed: nothing moves, not even the timers
    c8.step().unwrap();
    assert!(matches!(c8.mode, Mode::AwaitingKey(5)));
    assert_eq!(c8.program_counter, 0x202);
    assert_eq!(c8.delay_timer, 2);
    // a key press resumes execution and lands in V5
    c8.set_key(9, true);
    c8.step().unwrap();
    assert!(matches!(c8.mode, Mode::Running));
    assert_eq!(c8.registers[5], 9);
    assert_eq!(c8.program_counter, 0x202);
    // the next step executes the following instruction normally
    c8.step().unwrap();
    assert_eq!(c8.registers[1], 7);
    assert_eq!(c8.program_counter, 0x204);
}

#[test]
fn key_wait_takes_lowest_pressed_key() {
    let mut c8 = load(vec![0xF0, 0x0A]);
    c8.step().unwrap();
    c8.set_key(11, true);
    c8.set_key(4, true);
    c8.step().unwrap();
    assert_eq!(c8.registers[0], 4);
}

#[test]
fn set_key_toggles_flags() {
    let mut c8 = Chip8::new();
    c8.set_key(0, true);
    c8.set_key(15, true);
    assert_eq!(c8.keys[0], 1);
    assert_eq!(c8.keys[15], 1);
    c8.set_key(0, false);
    assert_eq!(c8.keys[0], 0);
    assert_eq!(c8.keys[15], 1);
}
