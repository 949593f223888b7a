use crate::vga_buffer::writer::{VGAByteWriter, WriterState};
use crate::vga_buffer::{
    cell_index, spec_clear_row, spec_color_byte, ColorMode, TextColor, VGABuffer, VGAChar, VGA_COLS,
    VGA_ROWS,
};
use vstd::prelude::*;
use vstd::string::StringSliceAdditionalSpecFns;

verus! {

/// The writer of the date-time line: the second last row of the buffer, yellow on black.
pub struct DateTimerWriter {
    col: u16,
    color: ColorMode,
    buffer: VGABuffer,
}

/// The byte is written as it is at the cursor, which moves right; past the end of the
/// row nothing is shown.
pub open spec fn datetime_step(s: WriterState, byte: u8) -> WriterState {
    WriterState {
        row: s.row,
        col: (s.col + 1) as u16,
        color: s.color,
        cells: if s.col < VGA_COLS {
            s.cells.update(cell_index((VGA_ROWS - 2) as int, s.col as int), VGAChar { byte, color: s.color })
        } else {
            s.cells
        },
        escape: s.escape,
    }
}

/// A byte can be written from `s`.
pub open spec fn datetime_step_ok(s: WriterState) -> bool {
    s.row == VGA_ROWS - 2 && s.col < u16::MAX && s.cells.len() == VGA_ROWS * VGA_COLS
}

/// What the writer shows after writing `bytes` from `s`, one after the other.
pub open spec fn datetime_steps(s: WriterState, bytes: Seq<u8>) -> WriterState
    decreases bytes.len(),
{
    if bytes.len() == 0 {
        s
    } else {
        datetime_steps(datetime_step(s, bytes[0]), bytes.drop_first())
    }
}

/// Each of `bytes` can be written in turn from `s`.
pub open spec fn datetime_steps_ok(s: WriterState, bytes: Seq<u8>) -> bool
    decreases bytes.len(),
{
    bytes.len() == 0 || (datetime_step_ok(s) && datetime_steps_ok(datetime_step(s, bytes[0]), bytes.drop_first()))
}

impl VGAByteWriter for DateTimerWriter {
    closed spec fn state(&self) -> WriterState {
        WriterState {
            row: (VGA_ROWS - 2) as u16,
            col: self.col,
            color: self.color,
            cells: self.buffer@,
            escape: false,
        }
    }


    open spec fn step(s: WriterState, byte: u8) -> WriterState {
        datetime_step(s, byte)
    }

    open spec fn step_ok(s: WriterState) -> bool {
        datetime_step_ok(s)
    }

    open spec fn steps(s: WriterState, bytes: Seq<u8>) -> WriterState {
        datetime_steps(s, bytes)
    }

    open spec fn steps_ok(s: WriterState, bytes: Seq<u8>) -> bool {
        datetime_steps_ok(s, bytes)
    }

    proof fn lemma_steps(s: WriterState, bytes: Seq<u8>) {
        assert(Self::steps(s, bytes) == datetime_steps(s, bytes));
        assert(Self::steps_ok(s, bytes) == datetime_steps_ok(s, bytes));
        if bytes.len() > 0 {
            let s1 = datetime_step(s, bytes[0]);
            let rest = bytes.drop_first();
            assert(datetime_steps(s, bytes) == datetime_steps(s1, rest));
            assert(datetime_steps_ok(s, bytes) == (datetime_step_ok(s) && datetime_steps_ok(s1, rest)));
            assert(Self::step(s, bytes[0]) == s1);
            assert(Self::step_ok(s) == datetime_step_ok(s));
            assert(Self::steps(s, bytes) == datetime_steps(s, bytes));
            assert(Self::steps_ok(s, bytes) == datetime_steps_ok(s, bytes));
            assert(Self::steps(s1, rest) == datetime_steps(s1, rest));
            assert(Self::steps_ok(s1, rest) == datetime_steps_ok(s1, rest));
        }
    }

    fn write_byte(&mut self, byte: u8) {
        let ghost s0 = self.state();
        assert(Self::step_ok(s0));
        self.buffer.write_char(VGA_ROWS - 2, self.col, VGAChar { byte, color: self.color });
        self.col += 1;
        assert(self.state().cells =~= datetime_step(s0, byte).cells);
        assert(Self::step(s0, byte) == datetime_step(s0, byte));
    }
}

/// From column `c`, the date-time writer can write fewer than `u16::MAX - c` bytes.
pub proof fn lemma_datetime_steps_ok(s: WriterState, bytes: Seq<u8>)
    requires
        s.row == VGA_ROWS - 2,
        s.cells.len() == VGA_ROWS * VGA_COLS,
        s.col + bytes.len() < u16::MAX,
    ensures
        DateTimerWriter::steps_ok(s, bytes),
        DateTimerWriter::steps(s, bytes).cells.len() == VGA_ROWS * VGA_COLS,
        DateTimerWriter::steps(s, bytes).row == s.row,
    decreases bytes.len(),
{
    if bytes.len() > 0 {
        lemma_datetime_steps_ok(DateTimerWriter::step(s, bytes[0]), bytes.drop_first());
    }
}

impl DateTimerWriter {
    /// Yellow on black, from the start of the second last row, a blank buffer.
    pub fn new() -> (r: Self)
        ensures
            r.state().col == 0,
            r.state().color.0 == spec_color_byte(TextColor::Yellow, TextColor::Black, false),
            r.state().cells.len() == VGA_ROWS * VGA_COLS,
            forall|i: int| 0 <= i < VGA_ROWS * VGA_COLS ==> #[trigger] r.state().cells[i] == crate::vga_buffer::blank(),
    {
        DateTimerWriter {
            col: 0,
            color: ColorMode::new(TextColor::Yellow, TextColor::Black, false),
            buffer: VGABuffer::new(),
        }
    }

    /// Prints `s` over the date-time line: the row is cleared, `s` is written from the
    /// cursor, and the cursor goes back to the start of the row.
    pub fn print_str(&mut self, s: &str)
        requires
            old(self).state().cells.len() == VGA_ROWS * VGA_COLS,
            old(self).state().col + s.spec_bytes().len() < u16::MAX,
        ensures
            final(self).state() == (WriterState {
                col: 0,
                ..DateTimerWriter::steps(
                    WriterState {
                        cells: spec_clear_row(old(self).state().cells, (VGA_ROWS - 2) as int),
                        ..old(self).state()
                    },
                    s.spec_bytes(),
                )
            }),
    {
        self.buffer.clear_row(VGA_ROWS - 2);
        proof {
            lemma_datetime_steps_ok(self.state(), s.spec_bytes());
        }
        self.write_string(s);
        self.col = 0;
    }

    /// The buffer the writer writes to.
    pub fn buffer(&self) -> (r: &VGABuffer)
        ensures
            r@ == self.state().cells,
    {
        &self.buffer
    }
}

} // verus!
