use kalopsia_os::vga_buffer::writer::datetime_writer::DateTimerWriter;
use kalopsia_os::vga_buffer::writer::main_writer::VGAWriter;
use kalopsia_os::vga_buffer::writer::timer_writer::TimerWriter;
use kalopsia_os::vga_buffer::writer::VGAByteWriter;
use kalopsia_os::vga_buffer::{ColorMode, TextColor, VGABuffer, VGAChar, VGA_COLS, VGA_ROWS};

#[test]
fn color_bytes() {
    assert_eq!(ColorMode::new(TextColor::White, TextColor::Black, false).0, 0x0f);
    assert_eq!(ColorMode::new(TextColor::Yellow, TextColor::Black, false).0, 0x0e);
    assert_eq!(ColorMode::new(TextColor::Green, TextColor::Blue, true).0, 0x92);
    assert_eq!(ColorMode::new(TextColor::Black, TextColor::Black, false).0, 0);
    assert_eq!(TextColor::Pink.code(), 0xd);
}

#[test]
fn buffer_write_and_read() {
    let mut b = VGABuffer::new();
    assert_eq!(b.read_char(0, 0), Some(b' '));
    let c = VGAChar { byte: b'x', color: ColorMode(0x0f) };
    assert!(b.write_char(3, 4, c));
    assert_eq!(b.read_char(3, 4), Some(b'x'));
    // outside the buffer nothing is written or read
    assert!(!b.write_char(VGA_ROWS, 0, c));
    assert!(!b.write_char(0, VGA_COLS, c));
    assert_eq!(b.read_char(0, VGA_COLS), None);
    assert_eq!(b.read_char(VGA_ROWS, 0), None);
}

#[test]
fn buffer_move_rows_up_and_clear() {
    let mut b = VGABuffer::new();
    let c = |byte| VGAChar { byte, color: ColorMode(0x0f) };
    b.write_char(1, 0, c(b'a'));
    b.write_char(2, 0, c(b'b'));
    b.write_char(5, 0, c(b'z'));
    b.move_rows_up(3);
    assert_eq!(b.read_char(0, 0), Some(b'a'));
    assert_eq!(b.read_char(1, 0), Some(b'b'));
    // rows from `up_to - 1` on are left as they were
    assert_eq!(b.read_char(2, 0), Some(b'b'));
    assert_eq!(b.read_char(5, 0), Some(b'z'));
    b.clear_row(1);
    assert_eq!(b.read_char(1, 0), Some(b' '));
    assert_eq!(b.read_char(0, 0), Some(b'a'));
}

#[test]
fn test_println_output() {
    let mut writer = VGAWriter::new();
    let start_row = writer.row();
    let start_col = writer.col();

    let string = "Hello World!, This is kalopsia OS";
    let mut string_bytes = string.bytes();
    writer.write_string(string);

    for row in start_row..(writer.row() + 1) {
        for col in start_col..writer.col() {
            assert_eq!(
                writer.buffer().read_char(row, col).unwrap(),
                string_bytes.next().unwrap()
            );
        }
    }
}

#[test]
fn main_writer_newline_and_wrap() {
    let mut writer = VGAWriter::new();
    writer.write_string("ab\ncd");
    assert_eq!(writer.row(), 1);
    assert_eq!(writer.col(), 2);
    assert_eq!(writer.buffer().read_char(0, 1), Some(b'b'));
    assert_eq!(writer.buffer().read_char(1, 0), Some(b'c'));
    // a full row moves the cursor to the next line
    let long = [b'x'; 80];
    let mut w2 = VGAWriter::new();
    w2.write_bytes(&long);
    assert_eq!((w2.row(), w2.col()), (0, 80));
    w2.write_byte(b'y');
    assert_eq!((w2.row(), w2.col()), (1, 1));
    assert_eq!(w2.buffer().read_char(1, 0), Some(b'y'));
}

#[test]
fn main_writer_unprintable_is_heart() {
    let mut writer = VGAWriter::new();
    writer.write_byte(0x07);
    writer.write_string("é");
    assert_eq!(writer.buffer().read_char(0, 0), Some(3));
    // the two bytes of a non-ASCII character each show as a heart
    assert_eq!(writer.buffer().read_char(0, 1), Some(3));
    assert_eq!(writer.buffer().read_char(0, 2), Some(3));
}

#[test]
fn main_writer_scrolls_at_last_text_row() {
    let mut writer = VGAWriter::new();
    writer.write_string("first");
    for _ in 0..22 {
        writer.write_byte(b'\n');
    }
    assert_eq!(writer.row(), 22);
    writer.write_string("last");
    writer.write_byte(b'\n');
    // the text moved up one row; the cursor stays on the last text row
    assert_eq!(writer.row(), 22);
    assert_eq!(writer.col(), 0);
    assert_eq!(writer.buffer().read_char(21, 0), Some(b'l'));
    assert_eq!(writer.buffer().read_char(22, 0), Some(b' '));
    assert_eq!(writer.buffer().read_char(0, 0), Some(b' '));
}

#[test]
fn main_writer_colors_and_clear() {
    let mut writer = VGAWriter::new();
    writer.change_text_color(TextColor::Cyan);
    writer.write_string("hi");
    writer.clear_screen();
    assert_eq!((writer.row(), writer.col()), (0, 0));
    assert_eq!(writer.buffer().read_char(0, 0), Some(b' '));
}

#[test]
fn main_writer_escape_print_overwrites_row() {
    let mut writer = VGAWriter::new();
    writer.print_str("Timer: 1");
    writer.escape_print = true;
    writer.print_str("T2");
    assert_eq!((writer.row(), writer.col()), (0, 2));
    assert_eq!(writer.buffer().read_char(0, 0), Some(b'T'));
    assert_eq!(writer.buffer().read_char(0, 1), Some(b'2'));
    assert_eq!(writer.buffer().read_char(0, 2), Some(b' '));
}

#[test]
fn timer_writer_wraps_in_last_row() {
    let mut t = TimerWriter::new();
    t.print_str("12:00");
    assert_eq!(t.buffer().read_char(VGA_ROWS - 1, 0), Some(b'1'));
    let long = [b'x'; 80];
    let mut t2 = TimerWriter::new();
    t2.write_bytes(&long);
    t2.write_byte(b'y');
    // a full row is cleared and written again from its start
    assert_eq!(t2.buffer().read_char(VGA_ROWS - 1, 0), Some(b'y'));
    assert_eq!(t2.buffer().read_char(VGA_ROWS - 1, 1), Some(b' '));
}

#[test]
fn datetime_writer_rewrites_its_row() {
    let mut d = DateTimerWriter::new();
    d.print_str("abc");
    d.print_str("z");
    assert_eq!(d.buffer().read_char(VGA_ROWS - 2, 0), Some(b'z'));
    // the row was cleared before the second print
    assert_eq!(d.buffer().read_char(VGA_ROWS - 2, 1), Some(b' '));
    // bytes are written as they are
    d.print_str("\n");
    assert_eq!(d.buffer().read_char(VGA_ROWS - 2, 0), Some(b'\n'));
}

#[test]
fn bottom_row_writer_scrolls_everything() {
    let mut w = kalopsia_os::vga_buffer::writer::VGAWriter::new();
    w.write_string("one\ntwo");
    assert_eq!(w.buffer().read_char(VGA_ROWS - 2, 0), Some(b'o'));
    assert_eq!(w.buffer().read_char(VGA_ROWS - 1, 0), Some(b't'));
    assert_eq!(w.buffer().read_char(VGA_ROWS - 1, 2), Some(b'o'));
}
