use crate::vga_buffer::{
    cell_index, spec_clear_row, spec_color_byte, spec_move_rows_up, ColorMode, TextColor, VGABuffer,
    VGAChar, VGA_COLS, VGA_ROWS,
};
use vstd::prelude::*;
use vstd::string::StringSliceAdditionalSpecFns;

pub mod datetime_writer;
pub mod main_writer;
pub mod timer_writer;

verus! {

/// What a writer shows: its cursor, its color, the buffer's contents, and whether each
/// print starts by clearing the cursor's row.
pub struct WriterState {
    pub row: u16,
    pub col: u16,
    pub color: ColorMode,
    pub cells: Seq<VGAChar>,
    pub escape: bool,
}

/// The byte that the buffer shows for `byte`: printable ASCII as it is, anything else as
/// the heart glyph (code 3).
pub open spec fn shown_byte(byte: u8) -> u8 {
    if 0x20 <= byte <= 0x7e {
        byte
    } else {
        3
    }
}

/// A writer of bytes to the VGA buffer, one byte at a time.
pub trait VGAByteWriter: Sized {
    /// What the writer shows.
    spec fn state(&self) -> WriterState;

    /// What the writer shows after writing `byte` from `s`.
    spec fn step(s: WriterState, byte: u8) -> WriterState;

    /// A byte can be written from `s`.
    spec fn step_ok(s: WriterState) -> bool;

    /// What the writer shows after writing `bytes` from `s`, one after the other.
    spec fn steps(s: WriterState, bytes: Seq<u8>) -> WriterState;

    /// Each of `bytes` can be written in turn from `s`.
    spec fn steps_ok(s: WriterState, bytes: Seq<u8>) -> bool;

    /// Writing bytes is writing the first, then the rest.
    proof fn lemma_steps(s: WriterState, bytes: Seq<u8>)
        ensures
            bytes.len() == 0 ==> Self::steps(s, bytes) == s && Self::steps_ok(s, bytes),
            bytes.len() > 0 ==> Self::steps(s, bytes) == Self::steps(Self::step(s, bytes[0]), bytes.drop_first()),
            bytes.len() > 0 ==> Self::steps_ok(s, bytes) == (Self::step_ok(s) && Self::steps_ok(Self::step(s, bytes[0]), bytes.drop_first())),
    ;

    fn write_byte(&mut self, byte: u8)
        requires
            Self::step_ok(old(self).state()),
        ensures
            final(self).state() == Self::step(old(self).state(), byte),
    ;

    fn write_bytes(&mut self, bytes: &[u8])
        requires
            Self::steps_ok(old(self).state(), bytes@),
        ensures
            final(self).state() == Self::steps(old(self).state(), bytes@),
    {
        let ghost start = self.state();
        let mut i: usize = 0;
        assert(bytes@.skip(0) =~= bytes@);
        while i < bytes.len()
            invariant
                i <= bytes@.len(),
                Self::steps_ok(self.state(), bytes@.skip(i as int)),
                Self::steps(self.state(), bytes@.skip(i as int)) == Self::steps(start, bytes@),
            decreases bytes@.len() - i,
        {
            let ghost rest = bytes@.skip(i as int);
            assert(rest[0] == bytes@[i as int]);
            assert(rest.drop_first() =~= bytes@.skip(i + 1));
            proof {
                Self::lemma_steps(self.state(), rest);
            }
            self.write_byte(bytes[i]);
            i += 1;
        }
        proof {
            Self::lemma_steps(self.state(), bytes@.skip(i as int));
        }
    }

    fn write_string(&mut self, string: &str)
        requires
            Self::steps_ok(old(self).state(), string.spec_bytes()),
        ensures
            final(self).state() == Self::steps(old(self).state(), string.spec_bytes()),
    {
        self.write_bytes(string.as_bytes());
    }
}

/// A writer that only writes the bottom row: a newline, or a full row, scrolls the
/// whole buffer up by one row and blanks the bottom row.
pub struct VGAWriter {
    col: u16,
    color: ColorMode,
    buffer: VGABuffer,
}

/// The bottom-row writer after writing `byte` from `s`.
pub open spec fn line_step(s: WriterState, byte: u8) -> WriterState {
    let s1 = if byte == 10 || s.col == VGA_COLS {
        WriterState {
            col: 0,
            cells: spec_clear_row(spec_move_rows_up(s.cells, VGA_ROWS as int), (VGA_ROWS - 1) as int),
            ..s
        }
    } else {
        s
    };
    if byte == 10 {
        s1
    } else {
        WriterState {
            col: (s1.col + 1) as u16,
            cells: s1.cells.update(
                cell_index((VGA_ROWS - 1) as int, s1.col as int),
                VGAChar { byte: shown_byte(byte), color: s1.color },
            ),
            ..s1
        }
    }
}

/// The bottom-row writer after writing `bytes` from `s`, one after the other.
pub open spec fn line_steps(s: WriterState, bytes: Seq<u8>) -> WriterState
    decreases bytes.len(),
{
    if bytes.len() == 0 {
        s
    } else {
        line_steps(line_step(s, bytes[0]), bytes.drop_first())
    }
}

/// The bottom-row writer can write from `s`: its cursor is in the bottom row.
pub open spec fn line_ok(s: WriterState) -> bool {
    s.row == VGA_ROWS - 1 && s.col <= VGA_COLS && s.cells.len() == VGA_ROWS * VGA_COLS
        && !s.escape
}

/// The bottom-row writer can write any bytes, and its cursor stays in the bottom row.
pub proof fn lemma_line_steps_ok(s: WriterState, bytes: Seq<u8>)
    requires
        line_ok(s),
    ensures
        line_ok(line_steps(s, bytes)),
    decreases bytes.len(),
{
    if bytes.len() > 0 {
        lemma_line_steps_ok(line_step(s, bytes[0]), bytes.drop_first());
    }
}

impl VGAWriter {
    /// What the writer shows: the cursor in the bottom row, the color and the buffer.
    pub closed spec fn state(&self) -> WriterState {
        WriterState {
            row: (VGA_ROWS - 1) as u16,
            col: self.col,
            color: self.color,
            cells: self.buffer@,
            escape: false,
        }
    }

    /// Green on black, from the start of the bottom row, a blank buffer.
    pub fn new() -> (r: Self)
        ensures
            r.state().col == 0,
            r.state().color.0 == spec_color_byte(TextColor::Green, TextColor::Black, false),
            line_ok(r.state()),
            forall|i: int| 0 <= i < VGA_ROWS * VGA_COLS ==> #[trigger] r.state().cells[i] == crate::vga_buffer::blank(),
    {
        VGAWriter {
            col: 0,
            color: ColorMode::new(TextColor::Green, TextColor::Black, false),
            buffer: VGABuffer::new(),
        }
    }

    /// The buffer the writer writes to.
    pub fn buffer(&self) -> (r: &VGABuffer)
        ensures
            r@ == self.state().cells,
    {
        &self.buffer
    }

    pub fn write_byte(&mut self, byte: u8)
        requires
            line_ok(old(self).state()),
        ensures
            final(self).state() == line_step(old(self).state(), byte),
    {
        let ghost s0 = self.state();
        if byte == 10 || self.col == VGA_COLS {
            self.buffer.move_rows_up(VGA_ROWS);
            self.col = 0;
            self.buffer.clear_row(VGA_ROWS - 1);
        }
        if byte == 10 {
            return ;
        }
        let vga_byte = if 0x20 <= byte && byte <= 0x7e {
            byte
        } else {
            3
        };
        self.buffer.write_char(VGA_ROWS - 1, self.col, VGAChar { byte: vga_byte, color: self.color });
        self.col += 1;
    }

    pub fn write_bytes(&mut self, bytes: &[u8])
        requires
            line_ok(old(self).state()),
        ensures
            final(self).state() == line_steps(old(self).state(), bytes@),
    {
        let ghost start = self.state();
        let mut i: usize = 0;
        assert(bytes@.skip(0) =~= bytes@);
        while i < bytes.len()
            invariant
                i <= bytes@.len(),
                line_ok(self.state()),
                line_steps(self.state(), bytes@.skip(i as int)) == line_steps(start, bytes@),
            decreases bytes@.len() - i,
        {
            let ghost rest = bytes@.skip(i as int);
            assert(rest[0] == bytes@[i as int]);
            assert(rest.drop_first() =~= bytes@.skip(i + 1));
            self.write_byte(bytes[i]);
            i += 1;
        }
    }

    pub fn write_string(&mut self, string: &str)
        requires
            line_ok(old(self).state()),
        ensures
            final(self).state() == line_steps(old(self).state(), string.spec_bytes()),
    {
        self.write_bytes(string.as_bytes());
    }
}

} // verus!
