//! Tests of the text console model and the small harness helpers.
use rustos::vga::{Color, ColorCode, Writer, BUFFER_HEIGHT, BUFFER_WIDTH};
use rustos::{test_runner, QemuExitCode};

fn yellow_on_black() -> ColorCode {
    ColorCode::new(Color::Yellow, Color::Black)
}

fn row_text(w: &Writer, row: usize) -> String {
    w.buffer[row].iter().map(|c| c.ascii_character as char).collect()
}

#[test]
fn color_code_packs_nibbles() {
    assert_eq!(ColorCode::new(Color::Yellow, Color::Black).0, 14);
    assert_eq!(ColorCode::new(Color::Black, Color::White).0, 0xf0);
    assert_eq!(ColorCode::new(Color::LightRed, Color::Blue).0, 0x1c);
    // The table skips hardware color 3.
    assert_eq!(Color::Cyan.code(), 4);
}

#[test]
fn writer_starts_blank() {
    let w = Writer::new(yellow_on_black());
    assert_eq!(w.column_position, 0);
    assert_eq!(w.buffer.len(), BUFFER_HEIGHT);
    for row in 0..BUFFER_HEIGHT {
        assert_eq!(w.buffer[row].len(), BUFFER_WIDTH);
        assert!(w.buffer[row].iter().all(|c| c.ascii_character == b' '));
    }
}

#[test]
fn write_byte_lands_on_bottom_row() {
    let mut w = Writer::new(yellow_on_black());
    w.write_byte(b'H');
    w.write_byte(b'i');
    assert_eq!(w.column_position, 2);
    let bottom = BUFFER_HEIGHT - 1;
    assert_eq!(w.buffer[bottom][0].ascii_character, b'H');
    assert_eq!(w.buffer[bottom][1].ascii_character, b'i');
    assert_eq!(w.buffer[bottom][0].color_code, yellow_on_black());
}

#[test]
fn newline_scrolls_rows_up() {
    let mut w = Writer::new(yellow_on_black());
    w.write_byte(b'x');
    w.write_byte(b'\n');
    assert_eq!(w.column_position, 0);
    // The written row moved up one; the bottom row is blank again.
    assert_eq!(w.buffer[BUFFER_HEIGHT - 2][0].ascii_character, b'x');
    assert!(w.buffer[BUFFER_HEIGHT - 1].iter().all(|c| c.ascii_character == b' '));
}

#[test]
fn full_line_wraps_before_writing() {
    let mut w = Writer::new(yellow_on_black());
    for _ in 0..BUFFER_WIDTH {
        w.write_byte(b'a');
    }
    assert_eq!(w.column_position, BUFFER_WIDTH);
    // The 81st byte forces a scroll and lands at column zero.
    w.write_byte(b'b');
    assert_eq!(w.column_position, 1);
    assert_eq!(w.buffer[BUFFER_HEIGHT - 1][0].ascii_character, b'b');
    assert_eq!(w.buffer[BUFFER_HEIGHT - 2][BUFFER_WIDTH - 1].ascii_character, b'a');
}

#[test]
fn clear_row_blanks_one_row() {
    let mut w = Writer::new(yellow_on_black());
    w.write_byte(b'z');
    w.clear_row(BUFFER_HEIGHT - 1);
    assert!(w.buffer[BUFFER_HEIGHT - 1].iter().all(|c| c.ascii_character == b' '));
}

#[test]
fn write_str_prints_and_replaces_unprintable_bytes() {
    let mut w = Writer::new(yellow_on_black());
    w.write_str("ok\u{2764}");
    let bottom = BUFFER_HEIGHT - 1;
    assert_eq!(w.buffer[bottom][0].ascii_character, b'o');
    assert_eq!(w.buffer[bottom][1].ascii_character, b'k');
    // The heart is three non-ASCII bytes, each replaced.
    assert_eq!(w.buffer[bottom][2].ascii_character, 0xfe);
    assert_eq!(w.buffer[bottom][3].ascii_character, 0xfe);
    assert_eq!(w.buffer[bottom][4].ascii_character, 0xfe);
}

#[test]
fn println_output_lands_one_row_up() {
    let mut w = Writer::new(yellow_on_black());
    let s = "Some test string that fits on a single line";
    w.write_str("\n");
    w.write_str(s);
    w.write_str("\n");
    let got = row_text(&w, BUFFER_HEIGHT - 2);
    assert_eq!(&got[..s.len()], s);
}

#[test]
fn println_many_lines_scroll_in_order() {
    let mut w = Writer::new(yellow_on_black());
    for i in 0..10 {
        w.write_str(&format!("line #{}\n", i));
    }
    for j in 0..10 {
        let got = row_text(&w, BUFFER_HEIGHT - 1 - (10 - j));
        assert_eq!(&got[..7], format!("line #{}", j));
    }
}

#[test]
fn qemu_exit_codes() {
    assert_eq!(QemuExitCode::Success.code(), 0x10);
    assert_eq!(QemuExitCode::Failed.code(), 0x11);
    assert_ne!(QemuExitCode::Success, QemuExitCode::Failed);
}

#[test]
fn test_runner_runs_every_test() {
    fn nop() {}
    let tests: Vec<fn()> = vec![nop, nop, nop];
    test_runner(&tests);
    let empty: Vec<fn()> = Vec::new();
    test_runner(&empty);
}
