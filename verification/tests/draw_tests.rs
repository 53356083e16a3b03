use chip8::errors::Chip8Error;
use chip8::machine::Chip8;

fn load(bytes: Vec<u8>) -> Chip8 {
    let mut c8 = Chip8::new();
    c8.load_program(&bytes).unwrap();
    c8
}

fn cell(c8: &Chip8, x: usize, y: usize) -> u8 {
    c8.screen[x + 64 * y]
}

#[test]
fn draw_font_glyph_at_origin() {
    // I = font glyph 0 (rows F0 90 90 90 F0); draw 5 rows at (V0, V1) = (0, 0)
    let mut c8 = load(vec![0xA0, 0x50, 0xD0, 0x15]);
    c8.step().unwrap();
    c8.step().unwrap();
    assert_eq!(c8.registers[15], 0);
    // top row: 1111 0000
    for x in 0..4 {
        assert_eq!(cell(&c8, x, 0), 1);
    }
    for x in 4..8 {
        assert_eq!(cell(&c8, x, 0), 0);
    }
    // second row: 1001 0000
    assert_eq!(cell(&c8, 0, 1), 1);
    assert_eq!(cell(&c8, 1, 1), 0);
    assert_eq!(cell(&c8, 2, 1), 0);
    assert_eq!(cell(&c8, 3, 1), 1);
    // bottom row: 1111 0000
    for x in 0..4 {
        assert_eq!(cell(&c8, x, 4), 1);
    }
}

#[test]
fn drawing_twice_restores_screen_and_reports_collision() {
    let mut c8 = load(vec![0xA0, 0x50, 0xD0, 0x15, 0xD0, 0x15]);
    c8.step().unwrap();
    c8.step().unwrap();
    assert_eq!(c8.registers[15], 0);
    c8.step().unwrap();
    assert_eq!(c8.registers[15], 1);
    assert!(c8.screen.iter().all(|&p| p == 0));
}

#[test]
fn draw_wraps_both_axes() {
    // V0 = 0xFF; I = 0x300; store V0 there; then draw 2 rows at (60, 30)
    let mut c8 = load(vec![
        0x60, 0xFF, 0xA3, 0x00, 0xF0, 0x55, 0x60, 0x3C, 0x61, 0x1E, 0xD0, 0x12,
    ]);
    for _ in 0..6 {
        c8.step().unwrap();
    }
    assert_eq!(c8.registers[15], 0);
    // the 8-pixel row starting at x = 60 wraps to x = 0..3
    for x in 60..64 {
        assert_eq!(cell(&c8, x, 30), 1);
    }
    for x in 0..4 {
        assert_eq!(cell(&c8, x, 30), 1);
    }
    assert_eq!(cell(&c8, 4, 30), 0);
    // the second sprite row is all zero bits and toggles nothing
    assert_eq!(cell(&c8, 60, 31), 0);
    assert_eq!(cell(&c8, 0, 31), 0);
}

#[test]
fn draw_out_of_bounds() {
    let mut c8 = load(vec![0xAF, 0xFF, 0xD0, 0x12]);
    c8.step().unwrap();
    assert_eq!(c8.step(), Err(Chip8Error::MemoryOutOfBounds));
}

#[test]
fn draw_zero_rows_is_a_no_op() {
    let mut c8 = load(vec![0xAF, 0xFF, 0xD0, 0x10]);
    c8.step().unwrap();
    c8.step().unwrap();
    assert_eq!(c8.registers[15], 0);
    assert!(c8.screen.iter().all(|&p| p == 0));
}

#[test]
fn clear_screen_blanks_everything() {
    let mut c8 = load(vec![0xA0, 0x50, 0xD0, 0x15, 0x00, 0xE0]);
    c8.step().unwrap();
    c8.step().unwrap();
    assert!(c8.screen.iter().any(|&p| p == 1));
    c8.step().unwrap();
    assert!(c8.screen.iter().all(|&p| p == 0));
    assert_eq!(c8.program_counter, 0x206);
}
