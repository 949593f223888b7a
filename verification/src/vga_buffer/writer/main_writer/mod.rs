use crate::vga_buffer::writer::{shown_byte, VGAByteWriter, WriterState};
use crate::vga_buffer::{
    cell_index, spec_clear_row, spec_color_byte, spec_move_rows_up, ColorMode, TextColor,
    VGABuffer, VGAChar, VGA_COLS, VGA_ROWS,
};
use vstd::prelude::*;
use vstd::string::StringSliceAdditionalSpecFns;

verus! {

/// The last row of the main text area: rows 0 to 22; the two rows below belong to the
/// date-time and timer writers.
pub const LAST_TEXT_ROW: u16 = 22;

/// The writer of the main text area.
pub struct VGAWriter {
    row: u16,
    col: u16,
    color: ColorMode,
    buffer: VGABuffer,
    /// When set, every print acts as if it started with `\r`: it clears the cursor's row
    /// and prints from its start.
    pub escape_print: bool,
}

/// The main writer after the cursor moved to the start of the next line: the text scrolls
/// up when the cursor is on the last text row.
pub open spec fn main_newline(s: WriterState) -> WriterState {
    if s.row == LAST_TEXT_ROW {
        WriterState {
            row: s.row,
            col: 0,
            color: s.color,
            cells: spec_clear_row(spec_move_rows_up(s.cells, (VGA_ROWS - 2) as int), LAST_TEXT_ROW as int),
            escape: s.escape,
        }
    } else {
        WriterState { row: (s.row + 1) as u16, col: 0, color: s.color, cells: s.cells, escape: s.escape }
    }
}

/// A newline, or a full row, moves the cursor to the next line; a newline writes
/// nothing else; any other byte is shown at the cursor, which moves right.
pub open spec fn main_step(s: WriterState, byte: u8) -> WriterState {
    let s1 = if byte == 10 || s.col == VGA_COLS {
        main_newline(s)
    } else {
        s
    };
    if byte == 10 {
        s1
    } else {
        WriterState {
            row: s1.row,
            col: (s1.col + 1) as u16,
            color: s1.color,
            cells: s1.cells.update(
                cell_index(s1.row as int, s1.col as int),
                VGAChar { byte: shown_byte(byte), color: s1.color },
            ),
            escape: s1.escape,
        }
    }
}

/// A byte can be written from `s`.
pub open spec fn main_step_ok(s: WriterState) -> bool {
    s.row <= LAST_TEXT_ROW && s.col <= VGA_COLS && s.cells.len() == VGA_ROWS * VGA_COLS
}

/// What the writer shows after writing `bytes` from `s`, one after the other.
pub open spec fn main_steps(s: WriterState, bytes: Seq<u8>) -> WriterState
    decreases bytes.len(),
{
    if bytes.len() == 0 {
        s
    } else {
        main_steps(main_step(s, bytes[0]), bytes.drop_first())
    }
}

/// Each of `bytes` can be written in turn from `s`.
pub open spec fn main_steps_ok(s: WriterState, bytes: Seq<u8>) -> bool
    decreases bytes.len(),
{
    bytes.len() == 0 || (main_step_ok(s) && main_steps_ok(main_step(s, bytes[0]), bytes.drop_first()))
}

impl VGAByteWriter for VGAWriter {
    closed spec fn state(&self) -> WriterState {
        WriterState {
            row: self.row,
            col: self.col,
            color: self.color,
            cells: self.buffer@,
            escape: self.escape_print,
        }
    }


    open spec fn step(s: WriterState, byte: u8) -> WriterState {
        main_step(s, byte)
    }

    open spec fn step_ok(s: WriterState) -> bool {
        main_step_ok(s)
    }

    open spec fn steps(s: WriterState, bytes: Seq<u8>) -> WriterState {
        main_steps(s, bytes)
    }

    open spec fn steps_ok(s: WriterState, bytes: Seq<u8>) -> bool {
        main_steps_ok(s, bytes)
    }

    proof fn lemma_steps(s: WriterState, bytes: Seq<u8>) {
        assert(Self::steps(s, bytes) == main_steps(s, bytes));
        assert(Self::steps_ok(s, bytes) == main_steps_ok(s, bytes));
        if bytes.len() > 0 {
            let s1 = main_step(s, bytes[0]);
            let rest = bytes.drop_first();
            assert(main_steps(s, bytes) == main_steps(s1, rest));
            assert(main_steps_ok(s, bytes) == (main_step_ok(s) && main_steps_ok(s1, rest)));
            assert(Self::step(s, bytes[0]) == s1);
            assert(Self::step_ok(s) == main_step_ok(s));
            assert(Self::steps(s, bytes) == main_steps(s, bytes));
            assert(Self::steps_ok(s, bytes) == main_steps_ok(s, bytes));
            assert(Self::steps(s1, rest) == main_steps(s1, rest));
            assert(Self::steps_ok(s1, rest) == main_steps_ok(s1, rest));
        }
    }

    fn write_byte(&mut self, byte: u8) {
        let ghost s0 = self.state();
        assert(Self::step_ok(s0));
        if byte == 10 || self.col == VGA_COLS {
            if self.row == VGA_ROWS - 3 {
                self.buffer.move_rows_up(VGA_ROWS - 2);
                self.buffer.clear_row(VGA_ROWS - 3);
            } else {
                self.row += 1;
            }
            self.col = 0;
        }
        if byte == 10 {
            return ;
        }
        let vga_byte = if 0x20 <= byte && byte <= 0x7e {
            byte
        } else {
            // the heart glyph stands for what is not printable ASCII
            3
        };
        self.buffer.write_char(self.row, self.col, VGAChar { byte: vga_byte, color: self.color });
        self.col += 1;
    }
}

/// From a state with the cursor inside the text area, every byte can be written, and the
/// cursor stays inside.
pub proof fn lemma_main_steps_ok(s: WriterState, bytes: Seq<u8>)
    requires
        VGAWriter::step_ok(s),
    ensures
        VGAWriter::steps_ok(s, bytes),
        VGAWriter::step_ok(VGAWriter::steps(s, bytes)),
    decreases bytes.len(),
{
    if bytes.len() > 0 {
        let s2 = VGAWriter::step(s, bytes[0]);
        assert(VGAWriter::step_ok(s2));
        lemma_main_steps_ok(s2, bytes.drop_first());
    }
}

/// Writing printable bytes that fit in the cursor's row shows them, in order, from the
/// cursor on, and moves the cursor past them.
pub proof fn lemma_main_write_in_row(s: WriterState, bytes: Seq<u8>)
    requires
        VGAWriter::step_ok(s),
        s.col + bytes.len() <= VGA_COLS,
        forall|i: int| 0 <= i < bytes.len() ==> 0x20 <= #[trigger] bytes[i] <= 0x7e,
    ensures
        ({
            let t = VGAWriter::steps(s, bytes);
            &&& t.row == s.row
            &&& t.col == s.col + bytes.len()
            &&& t.color == s.color
            &&& t.escape == s.escape
            &&& forall|i: int|
                0 <= i < bytes.len() ==> #[trigger] t.cells[cell_index(s.row as int, s.col + i)]
                    == VGAChar { byte: bytes[i], color: s.color }
        }),
    decreases bytes.len(),
{
    if bytes.len() > 0 {
        let s2 = VGAWriter::step(s, bytes[0]);
        let rest = bytes.drop_first();
        assert forall|i: int| 0 <= i < rest.len() implies 0x20 <= #[trigger] rest[i] <= 0x7e by {
            assert(rest[i] == bytes[i + 1]);
        }
        lemma_main_write_in_row(s2, rest);
        let t = VGAWriter::steps(s2, rest);
        assert forall|i: int| 0 <= i < bytes.len() implies #[trigger] t.cells[cell_index(s.row as int, s.col + i)]
            == VGAChar { byte: bytes[i], color: s.color } by {
            if i > 0 {
                assert(rest[i - 1] == bytes[i]);
                assert(t.cells[cell_index(s2.row as int, s2.col + (i - 1))] == VGAChar { byte: rest[i - 1], color: s2.color });
            } else {
                lemma_row_untouched(s2, rest, s.col as int);
            }
        }
    }
}

/// Writing a byte never changes the writer's color. A byte other than a newline, written
/// with the cursor inside its row, shows at the cursor in the writer's color (printable
/// ASCII as it is, anything else as the heart glyph, code 3), and the cursor moves one
/// cell right; a newline moves the cursor to the start of the next row.
pub proof fn lemma_main_write_byte(s: WriterState, byte: u8)
    requires
        main_step_ok(s),
    ensures
        main_step(s, byte).color == s.color,
        main_step(s, byte).escape == s.escape,
        byte != 10 && s.col < VGA_COLS ==> {
            let t = main_step(s, byte);
            &&& t.row == s.row
            &&& t.col == s.col + 1
            &&& t.cells[cell_index(s.row as int, s.col as int)] == VGAChar {
                byte: if 0x20 <= byte <= 0x7e {
                    byte
                } else {
                    3u8
                },
                color: s.color,
            }
            &&& forall|j: int|
                0 <= j < s.cells.len() && j != cell_index(s.row as int, s.col as int) ==> #[trigger] t.cells[j]
                    == s.cells[j]
        },
        byte == 10 && s.row < LAST_TEXT_ROW ==> {
            let t = main_step(s, byte);
            &&& t.row == s.row + 1
            &&& t.col == 0
            &&& t.cells == s.cells
        },
{
}

/// Writing bytes never changes the writer's color, nor whether prints start by clearing
/// the cursor's row.
pub proof fn lemma_main_steps_keep_color(s: WriterState, bytes: Seq<u8>)
    ensures
        main_steps(s, bytes).color == s.color,
        main_steps(s, bytes).escape == s.escape,
    decreases bytes.len(),
{
    if bytes.len() > 0 {
        let s2 = main_step(s, bytes[0]);
        assert(s2.color == s.color && s2.escape == s.escape);
        lemma_main_steps_keep_color(s2, bytes.drop_first());
    }
}

/// Writing printable bytes that fit in the cursor's row leaves the cells of that row
/// before the cursor as they were.
pub proof fn lemma_row_untouched(s: WriterState, bytes: Seq<u8>, c: int)
    requires
        VGAWriter::step_ok(s),
        s.col + bytes.len() <= VGA_COLS,
        forall|i: int| 0 <= i < bytes.len() ==> 0x20 <= #[trigger] bytes[i] <= 0x7e,
        0 <= c < s.col,
    ensures
        VGAWriter::steps(s, bytes).cells[cell_index(s.row as int, c)] == s.cells[cell_index(s.row as int, c)],
    decreases bytes.len(),
{
    if bytes.len() > 0 {
        let s2 = VGAWriter::step(s, bytes[0]);
        let rest = bytes.drop_first();
        assert forall|i: int| 0 <= i < rest.len() implies 0x20 <= #[trigger] rest[i] <= 0x7e by {
            assert(rest[i] == bytes[i + 1]);
        }
        lemma_row_untouched(s2, rest, c);
    }
}

/// What the main writer shows after printing `bytes` from `s`: where `escape` is set, the
/// cursor's row is blanked first and the bytes are written from its start.
pub open spec fn spec_print(s: WriterState, bytes: Seq<u8>) -> WriterState {
    main_steps(
        if s.escape {
            WriterState { col: 0, cells: spec_clear_row(s.cells, s.row as int), ..s }
        } else {
            s
        },
        bytes,
    )
}

/// `s` with later text in `color` on black.
pub open spec fn with_color(s: WriterState, color: TextColor) -> WriterState {
    WriterState { color: ColorMode(spec_color_byte(color, TextColor::Black, false)), ..s }
}

impl VGAWriter {
    /// White on black, the cursor at the top left, a blank buffer.
    pub fn new() -> (r: Self)
        ensures
            r.state().row == 0,
            r.state().col == 0,
            r.state().color.0 == spec_color_byte(TextColor::White, TextColor::Black, false),
            !r.state().escape,
            VGAWriter::step_ok(r.state()),
            forall|i: int| 0 <= i < VGA_ROWS * VGA_COLS ==> #[trigger] r.state().cells[i] == crate::vga_buffer::blank(),
    {
        VGAWriter {
            row: 0,
            col: 0,
            color: ColorMode::new(TextColor::White, TextColor::Black, false),
            buffer: VGABuffer::new(),
            escape_print: false,
        }
    }

    /// The cursor's row.
    pub fn row(&self) -> (r: u16)
        ensures
            r == self.state().row,
    {
        self.row
    }

    /// The cursor's column.
    pub fn col(&self) -> (r: u16)
        ensures
            r == self.state().col,
    {
        self.col
    }

    /// The buffer the writer writes to.
    pub fn buffer(&self) -> (r: &VGABuffer)
        ensures
            r@ == self.state().cells,
    {
        &self.buffer
    }

    /// Later text is `color` on black.
    pub fn change_text_color(&mut self, color: TextColor)
        ensures
            final(self).state() == with_color(old(self).state(), color),
    {
        self.color = ColorMode::new(color, TextColor::Black, false);
    }

    /// Blanks the text area and moves the cursor to its top left.
    pub fn clear_screen(&mut self)
        requires
            VGAWriter::step_ok(old(self).state()),
        ensures
            VGAWriter::step_ok(final(self).state()),
            final(self).state().row == 0,
            final(self).state().col == 0,
            final(self).state().color == old(self).state().color,
            final(self).state().escape == old(self).state().escape,
            forall|i: int|
                0 <= i < VGA_ROWS * VGA_COLS ==> #[trigger] final(self).state().cells[i] == (if i < (
                VGA_ROWS - 2) * VGA_COLS {
                    crate::vga_buffer::blank()
                } else {
                    old(self).state().cells[i]
                }),
    {
        let ghost old_cells = self.buffer@;
        let mut row: u16 = 0;
        while row < VGA_ROWS - 2
            invariant
                row <= VGA_ROWS - 2,
                self.buffer@.len() == VGA_ROWS * VGA_COLS,
                old_cells.len() == VGA_ROWS * VGA_COLS,
                self.color == old(self).color,
                self.escape_print == old(self).escape_print,
                self.row == old(self).row,
                self.col == old(self).col,
                forall|i: int|
                    0 <= i < VGA_ROWS * VGA_COLS ==> #[trigger] self.buffer@[i] == (if i < row * VGA_COLS {
                        crate::vga_buffer::blank()
                    } else {
                        old_cells[i]
                    }),
            decreases VGA_ROWS - 2 - row,
        {
            self.buffer.clear_row(row);
            row += 1;
        }
        self.row = 0;
        self.col = 0;
    }

    /// Prints `s`: where `escape_print` is set, first blanks the cursor's row and moves the
    /// cursor to its start.
    pub fn print_str(&mut self, s: &str)
        requires
            VGAWriter::step_ok(old(self).state()),
        ensures
            VGAWriter::step_ok(final(self).state()),
            final(self).state() == spec_print(old(self).state(), s.spec_bytes()),
    {
        if self.escape_print {
            let row = self.row;
            self.buffer.clear_row(row);
            self.col = 0;
        }
        proof {
            lemma_main_steps_ok(self.state(), s.spec_bytes());
        }
        self.write_string(s);
    }
}

} // verus!
