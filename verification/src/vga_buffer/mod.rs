//! The VGA text buffer: 25 rows of 80 characters, each an ASCII byte and a color byte.
//! The hardware buffer starts at physical address `0xb8000`; the library holds its
//! contents, and copying them to the hardware is done outside it.
use vstd::prelude::*;

pub mod writer;

verus! {

#[derive(Debug, Clone, Copy, PartialEq, Eq)]
pub enum TextColor {
    Black,
    Blue,
    Green,
    Cyan,
    Red,
    Magenta,
    Brown,
    LightGray,
    DarkGray,
    LightBlue,
    LightGreen,
    LightCyan,
    LightRed,
    Pink,
    Yellow,
    White,
}

impl TextColor {
    /// The 4-bit code of the color.
    pub open spec fn spec_code(self) -> u8 {
        match self {
            TextColor::Black => 0x0,
            TextColor::Blue => 0x1,
            TextColor::Green => 0x2,
            TextColor::Cyan => 0x3,
            TextColor::Red => 0x4,
            TextColor::Magenta => 0x5,
            TextColor::Brown => 0x6,
            TextColor::LightGray => 0x7,
            TextColor::DarkGray => 0x8,
            TextColor::LightBlue => 0x9,
            TextColor::LightGreen => 0xa,
            TextColor::LightCyan => 0xb,
            TextColor::LightRed => 0xc,
            TextColor::Pink => 0xd,
            TextColor::Yellow => 0xe,
            TextColor::White => 0xf,
        }
    }

    pub fn code(self) -> (r: u8)
        ensures
            r == self.spec_code(),
    {
        match self {
            TextColor::Black => 0x0,
            TextColor::Blue => 0x1,
            TextColor::Green => 0x2,
            TextColor::Cyan => 0x3,
            TextColor::Red => 0x4,
            TextColor::Magenta => 0x5,
            TextColor::Brown => 0x6,
            TextColor::LightGray => 0x7,
            TextColor::DarkGray => 0x8,
            TextColor::LightBlue => 0x9,
            TextColor::LightGreen => 0xa,
            TextColor::LightCyan => 0xb,
            TextColor::LightRed => 0xc,
            TextColor::Pink => 0xd,
            TextColor::Yellow => 0xe,
            TextColor::White => 0xf,
        }
    }
}

/// The color byte of a character: foreground in bits 0 to 3, background from bit 4,
/// blink in bit 7.
#[derive(Debug, Clone, Copy, PartialEq, Eq)]
pub struct ColorMode(pub u8);

/// The color byte for the given colors and blink.
pub open spec fn spec_color_byte(foreground: TextColor, background: TextColor, blink: bool) -> u8 {
    ((background.spec_code() << 4u8) | foreground.spec_code() | ((if blink {
        1u8
    } else {
        0u8
    }) << 7u8)) as u8
}

impl ColorMode {
    pub fn new(foreground: TextColor, background: TextColor, blink: bool) -> (r: Self)
        ensures
            r.0 == spec_color_byte(foreground, background, blink),
    {
        let color_byte = (background.code() << 4) | foreground.code() | ((if blink {
            1u8
        } else {
            0u8
        }) << 7);
        ColorMode(color_byte)
    }
}

/// A character of the buffer.
#[derive(Debug, Clone, Copy, PartialEq, Eq)]
pub struct VGAChar {
    pub byte: u8,
    pub color: ColorMode,
}

pub const VGA_ROWS: u16 = 25;

pub const VGA_COLS: u16 = 80;

/// The blank character that clears a cell: a space, black on black.
pub open spec fn blank() -> VGAChar {
    VGAChar { byte: 0x20, color: ColorMode(spec_color_byte(TextColor::Black, TextColor::Black, false)) }
}

/// The index of the cell at `row`, `col` in the row-major contents.
pub open spec fn cell_index(row: int, col: int) -> int {
    row * VGA_COLS + col
}

/// The contents after moving the rows `1..up_to` up by one row: row `r` takes the
/// contents of row `r + 1`, for `r < up_to - 1`.
pub open spec fn spec_move_rows_up(cells: Seq<VGAChar>, up_to: int) -> Seq<VGAChar> {
    Seq::new(
        cells.len(),
        |i: int|
            if i < (up_to - 1) * VGA_COLS {
                cells[i + VGA_COLS]
            } else {
                cells[i]
            },
    )
}

/// The contents after blanking `row`.
pub open spec fn spec_clear_row(cells: Seq<VGAChar>, row: int) -> Seq<VGAChar> {
    Seq::new(
        cells.len(),
        |i: int|
            if 0 <= row < VGA_ROWS && row * VGA_COLS <= i < (row + 1) * VGA_COLS {
                blank()
            } else {
                cells[i]
            },
    )
}

/// The contents of the 25 × 80 text buffer.
pub struct VGABuffer {
    cells: Vec<VGAChar>,
}

impl View for VGABuffer {
    type V = Seq<VGAChar>;

    closed spec fn view(&self) -> Seq<VGAChar> {
        self.cells@
    }
}

impl VGABuffer {
    /// A buffer of blank cells.
    pub fn new() -> (r: Self)
        ensures
            r@.len() == VGA_ROWS * VGA_COLS,
            forall|i: int| 0 <= i < VGA_ROWS * VGA_COLS ==> #[trigger] r@[i] == blank(),
    {
        let mut cells: Vec<VGAChar> = Vec::new();
        let b = VGAChar { byte: 0x20, color: ColorMode::new(TextColor::Black, TextColor::Black, false) };
        while cells.len() < 2000
            invariant
                cells@.len() <= 2000,
                b == blank(),
                forall|i: int| 0 <= i < cells@.len() ==> #[trigger] cells@[i] == blank(),
            decreases 2000 - cells@.len(),
        {
            cells.push(b);
        }
        VGABuffer { cells }
    }

    /// The index of the cell at `row`, `col`; none outside the buffer.
    fn get_index(&self, row: u16, col: u16) -> (r: Option<usize>)
        ensures
            r == (if row < VGA_ROWS && col < VGA_COLS {
                Some(cell_index(row as int, col as int) as usize)
            } else {
                None
            }),
    {
        if row >= VGA_ROWS || col >= VGA_COLS {
            None
        } else {
            Some((row * VGA_COLS + col) as usize)
        }
    }

    /// Writes `ch` at `row`, `col`; false, writing nothing, outside the buffer.
    pub fn write_char(&mut self, row: u16, col: u16, ch: VGAChar) -> (r: bool)
        requires
            old(self)@.len() == VGA_ROWS * VGA_COLS,
        ensures
            r == (row < VGA_ROWS && col < VGA_COLS),
            r ==> final(self)@ == old(self)@.update(cell_index(row as int, col as int), ch),
            !r ==> final(self)@ == old(self)@,
    {
        let index = self.get_index(row, col);
        let Some(index) = index else {
            return false;
        };
        self.cells.set(index, ch);
        true
    }

    /// The character byte at `row`, `col`; none outside the buffer.
    pub fn read_char(&self, row: u16, col: u16) -> (r: Option<u8>)
        requires
            self@.len() == VGA_ROWS * VGA_COLS,
        ensures
            r == (if row < VGA_ROWS && col < VGA_COLS {
                Some(self@[cell_index(row as int, col as int)].byte)
            } else {
                None
            }),
    {
        match self.get_index(row, col) {
            Some(i) => Some(self.cells[i].byte),
            None => None,
        }
    }

    /// The character at `row`, `col`; none outside the buffer.
    pub fn get_char(&self, row: u16, col: u16) -> (r: Option<VGAChar>)
        requires
            self@.len() == VGA_ROWS * VGA_COLS,
        ensures
            r == (if row < VGA_ROWS && col < VGA_COLS {
                Some(self@[cell_index(row as int, col as int)])
            } else {
                None
            }),
    {
        match self.get_index(row, col) {
            Some(i) => Some(self.cells[i]),
            None => None,
        }
    }

    /// Moves the rows `1..up_to` up by one row.
    pub fn move_rows_up(&mut self, up_to: u16)
        requires
            old(self)@.len() == VGA_ROWS * VGA_COLS,
            up_to <= VGA_ROWS,
        ensures
            final(self)@ == spec_move_rows_up(old(self)@, up_to as int),
    {
        let ghost old_cells = self@;
        let mut row: u16 = 1;
        while row < up_to
            invariant
                1 <= row <= up_to || up_to == 0 && row == 1,
                up_to <= VGA_ROWS,
                self@.len() == VGA_ROWS * VGA_COLS,
                old_cells.len() == VGA_ROWS * VGA_COLS,
                forall|i: int|
                    0 <= i < VGA_ROWS * VGA_COLS ==> #[trigger] self@[i] == (if i < (row - 1) * VGA_COLS {
                        old_cells[i + VGA_COLS]
                    } else {
                        old_cells[i]
                    }),
            decreases up_to - row,
        {
            let mut col: u16 = 0;
            while col < VGA_COLS
                invariant
                    1 <= row < up_to <= VGA_ROWS,
                    col <= VGA_COLS,
                    self@.len() == VGA_ROWS * VGA_COLS,
                    old_cells.len() == VGA_ROWS * VGA_COLS,
                    forall|i: int|
                        0 <= i < VGA_ROWS * VGA_COLS ==> #[trigger] self@[i] == (if i < (row - 1) * VGA_COLS + col {
                            old_cells[i + VGA_COLS]
                        } else {
                            old_cells[i]
                        }),
                decreases VGA_COLS - col,
            {
                // the cell below is still as it was
                let ch = self.cells[(row * VGA_COLS + col) as usize];
                self.write_char(row - 1, col, ch);
                col += 1;
            }
            row += 1;
        }
        assert(self@ =~= spec_move_rows_up(old_cells, up_to as int));
    }

    /// Blanks `row`; nothing outside the buffer.
    pub fn clear_row(&mut self, row: u16)
        requires
            old(self)@.len() == VGA_ROWS * VGA_COLS,
        ensures
            final(self)@ == spec_clear_row(old(self)@, row as int),
    {
        let ghost old_cells = self@;
        let blank_char = VGAChar {
            byte: 0x20,
            color: ColorMode::new(TextColor::Black, TextColor::Black, false),
        };
        let mut col: u16 = 0;
        while col < VGA_COLS
            invariant
                col <= VGA_COLS,
                blank_char == blank(),
                self@.len() == VGA_ROWS * VGA_COLS,
                old_cells.len() == VGA_ROWS * VGA_COLS,
                forall|i: int|
                    0 <= i < VGA_ROWS * VGA_COLS ==> #[trigger] self@[i] == (if 0 <= row < VGA_ROWS && row
                        * VGA_COLS <= i < row * VGA_COLS + col {
                        blank()
                    } else {
                        old_cells[i]
                    }),
            decreases VGA_COLS - col,
        {
            self.write_char(row, col, blank_char);
            col += 1;
        }
        assert(self@ =~= spec_clear_row(old_cells, row as int));
    }
}

} // verus!
