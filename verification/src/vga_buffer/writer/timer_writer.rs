use crate::vga_buffer::writer::{VGAByteWriter, WriterState};
use crate::vga_buffer::{
    cell_index, spec_clear_row, spec_color_byte, ColorMode, TextColor, VGABuffer, VGAChar, VGA_COLS,
    VGA_ROWS,
};
use vstd::prelude::*;
use vstd::string::StringSliceAdditionalSpecFns;

verus! {

/// The writer of the timer line: the last row of the buffer, yellow on black.
pub struct TimerWriter {
    col: u16,
    color: ColorMode,
    buffer: VGABuffer,
}

/// A full row is cleared and written again from its start; the byte is written as it
/// is.
pub open spec fn timer_step(s: WriterState, byte: u8) -> WriterState {
    let (col, cells) = if s.col == VGA_COLS {
        (0u16, spec_clear_row(s.cells, (VGA_ROWS - 1) as int))
    } else {
        (s.col, s.cells)
    };
    WriterState {
        row: s.row,
        col: (col + 1) as u16,
        color: s.color,
        cells: cells.update(cell_index((VGA_ROWS - 1) as int, col as int), VGAChar { byte, color: s.color }),
        escape: s.escape,
    }
}

/// A byte can be written from `s`.
pub open spec fn timer_step_ok(s: WriterState) -> bool {
    s.row == VGA_ROWS - 1 && s.col <= VGA_COLS && s.cells.len() == VGA_ROWS * VGA_COLS
}

/// What the writer shows after writing `bytes` from `s`, one after the other.
pub open spec fn timer_steps(s: WriterState, bytes: Seq<u8>) -> WriterState
    decreases bytes.len(),
{
    if bytes.len() == 0 {
        s
    } else {
        timer_steps(timer_step(s, bytes[0]), bytes.drop_first())
    }
}

/// Each of `bytes` can be written in turn from `s`.
pub open spec fn timer_steps_ok(s: WriterState, bytes: Seq<u8>) -> bool
    decreases bytes.len(),
{
    bytes.len() == 0 || (timer_step_ok(s) && timer_steps_ok(timer_step(s, bytes[0]), bytes.drop_first()))
}

impl VGAByteWriter for TimerWriter {
    closed spec fn state(&self) -> WriterState {
        WriterState {
            row: (VGA_ROWS - 1) as u16,
            col: self.col,
            color: self.color,
            cells: self.buffer@,
            escape: false,
        }
    }


    open spec fn step(s: WriterState, byte: u8) -> WriterState {
        timer_step(s, byte)
    }

    open spec fn step_ok(s: WriterState) -> bool {
        timer_step_ok(s)
    }

    open spec fn steps(s: WriterState, bytes: Seq<u8>) -> WriterState {
        timer_steps(s, bytes)
    }

    open spec fn steps_ok(s: WriterState, bytes: Seq<u8>) -> bool {
        timer_steps_ok(s, bytes)
    }

    proof fn lemma_steps(s: WriterState, bytes: Seq<u8>) {
        assert(Self::steps(s, bytes) == timer_steps(s, bytes));
        assert(Self::steps_ok(s, bytes) == timer_steps_ok(s, bytes));
        if bytes.len() > 0 {
            let s1 = timer_step(s, bytes[0]);
            let rest = bytes.drop_first();
            assert(timer_steps(s, bytes) == timer_steps(s1, rest));
            assert(timer_steps_ok(s, bytes) == (timer_step_ok(s) && timer_steps_ok(s1, rest)));
            assert(Self::step(s, bytes[0]) == s1);
            assert(Self::step_ok(s) == timer_step_ok(s));
            assert(Self::steps(s, bytes) == timer_steps(s, bytes));
            assert(Self::steps_ok(s, bytes) == timer_steps_ok(s, bytes));
            assert(Self::steps(s1, rest) == timer_steps(s1, rest));
            assert(Self::steps_ok(s1, rest) == timer_steps_ok(s1, rest));
        }
    }

    fn write_byte(&mut self, byte: u8) {
        let ghost s0 = self.state();
        assert(Self::step_ok(s0));
        if self.col == VGA_COLS {
            self.buffer.clear_row(VGA_ROWS - 1);
            self.col = 0;
        }
        self.buffer.write_char(VGA_ROWS - 1, self.col, VGAChar { byte, color: self.color });
        self.col += 1;
    }
}

/// The timer writer can always write, and its cursor stays in its row.
pub proof fn lemma_timer_steps_ok(s: WriterState, bytes: Seq<u8>)
    requires
        TimerWriter::step_ok(s),
    ensures
        TimerWriter::steps_ok(s, bytes),
        TimerWriter::step_ok(TimerWriter::steps(s, bytes)),
    decreases bytes.len(),
{
    if bytes.len() > 0 {
        lemma_timer_steps_ok(TimerWriter::step(s, bytes[0]), bytes.drop_first());
    }
}

impl TimerWriter {
    /// Yellow on black, from the start of the last row, a blank buffer.
    pub fn new() -> (r: Self)
        ensures
            r.state().col == 0,
            r.state().color.0 == spec_color_byte(TextColor::Yellow, TextColor::Black, false),
            TimerWriter::step_ok(r.state()),
            forall|i: int| 0 <= i < VGA_ROWS * VGA_COLS ==> #[trigger] r.state().cells[i] == crate::vga_buffer::blank(),
    {
        TimerWriter {
            col: 0,
            color: ColorMode::new(TextColor::Yellow, TextColor::Black, false),
            buffer: VGABuffer::new(),
        }
    }

    /// Prints `s` on the timer line.
    pub fn print_str(&mut self, s: &str)
        requires
            TimerWriter::step_ok(old(self).state()),
        ensures
            TimerWriter::step_ok(final(self).state()),
            final(self).state() == TimerWriter::steps(old(self).state(), s.spec_bytes()),
    {
        proof {
            lemma_timer_steps_ok(self.state(), s.spec_bytes());
        }
        self.write_string(s);
    }

    /// The buffer the writer writes to.
    pub fn buffer(&self) -> (r: &VGABuffer)
        ensures
            r@ == self.state().cells,
    {
        &self.buffer
    }
}

} // verus!
