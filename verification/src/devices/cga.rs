use vstd::prelude::*;
use vstd::string::StringSliceAdditionalSpecFns;

verus! {

/// Number of text rows of the CGA screen.
pub const CGA_ROWS: usize = 25;

/// Number of text columns of the CGA screen.
pub const CGA_COLUMNS: usize = 80;

/// Size of the text-mode video memory.
pub const CGA_MEMORY_SIZE: usize = 0x8000;

/// Standard attribute: green on black.
pub const CGA_STD_ATTR: u8 = 2;

/// First position of the last row that the 16-bit cursor register can address
/// completely; a line feed there would move the cursor past the register's range.
pub const LAST_WRAP_ROW_START: u16 = 65520;

/// The blank character.
pub const SPACE: u8 = 0x20;

/// The newline character.
pub const NEWLINE: u8 = 0x0a;

/// Byte shown for a character outside printable ASCII.
pub const NON_PRINTABLE: u8 = 0xfe;

/// All 16 CGA colors.
#[derive(Clone, Copy, PartialEq, Eq, Structural)]
pub enum Color {
    Black,
    Blue,
    Green,
    Cyan,
    Red,
    Pink,
    Brown,
    LightGray,
    DarkGray,
    LightBlue,
    LightGreen,
    LightCyan,
    LightRed,
    LightPink,
    Yellow,
    White,
}

impl Color {
    /// The 4-bit code of the color.
    pub open spec fn code(self) -> u8 {
        match self {
            Color::Black => 0,
            Color::Blue => 1,
            Color::Green => 2,
            Color::Cyan => 3,
            Color::Red => 4,
            Color::Pink => 5,
            Color::Brown => 6,
            Color::LightGray => 7,
            Color::DarkGray => 8,
            Color::LightBlue => 9,
            Color::LightGreen => 10,
            Color::LightCyan => 11,
            Color::LightRed => 12,
            Color::LightPink => 13,
            Color::Yellow => 14,
            Color::White => 15,
        }
    }

    /// The 4-bit code of the color.
    pub fn value(self) -> (r: u8)
        ensures
            r == self.code(),
    {
        match self {
            Color::Black => 0,
            Color::Blue => 1,
            Color::Green => 2,
            Color::Cyan => 3,
            Color::Red => 4,
            Color::Pink => 5,
            Color::Brown => 6,
            Color::LightGray => 7,
            Color::DarkGray => 8,
            Color::LightBlue => 9,
            Color::LightGreen => 10,
            Color::LightCyan => 11,
            Color::LightRed => 12,
            Color::LightPink => 13,
            Color::Yellow => 14,
            Color::White => 15,
        }
    }
}

/// The attribute byte for background `bg`, foreground `fg` and blinking.
pub open spec fn attribute_spec(bg: Color, fg: Color, blink: bool) -> u8 {
    ((if blink { 1u8 } else { 0u8 }) << 7u8) | (bg.code() << 4u8) | fg.code()
}

/// The column of cursor position `pos`.
pub open spec fn col_of(pos: int) -> int {
    pos % (CGA_COLUMNS as int)
}

/// The row of cursor position `pos`.
pub open spec fn row_of(pos: int) -> int {
    pos / (CGA_COLUMNS as int)
}

/// The value the 16-bit cursor register holds after the cursor was set to `x`, `y`.
pub open spec fn cursor_reg(x: int, y: int) -> u16 {
    ((y * CGA_COLUMNS + x) % 0x10000) as u16
}

/// Video memory after the character byte `c` with attribute `attrib` was put at `x`, `y`.
pub open spec fn show_spec(vram: Seq<u8>, x: int, y: int, c: u8, attrib: u8) -> Seq<u8> {
    if x > CGA_COLUMNS || y > CGA_ROWS {
        vram
    } else {
        let pos = (y * CGA_COLUMNS + x) * 2;
        vram.update(pos, c).update(pos + 1, attrib)
    }
}

/// Video memory after all lines moved one up and the last line was cleared.
pub open spec fn scrolled(vram: Seq<u8>) -> Seq<u8> {
    Seq::new(
        vram.len(),
        |i: int|
            if i < (CGA_ROWS - 1) * CGA_COLUMNS * 2 {
                vram[i + CGA_COLUMNS * 2]
            } else if i < CGA_ROWS * CGA_COLUMNS * 2 {
                if i % 2 == 0 {
                    SPACE
                } else {
                    CGA_STD_ATTR
                }
            } else {
                vram[i]
            },
    )
}

/// Video memory of a cleared screen.
pub open spec fn cleared(vram: Seq<u8>) -> Seq<u8> {
    Seq::new(
        vram.len(),
        |i: int|
            if i < CGA_ROWS * CGA_COLUMNS * 2 {
                if i % 2 == 0 {
                    SPACE
                } else {
                    CGA_STD_ATTR
                }
            } else {
                vram[i]
            },
    )
}

/// Video memory and cursor after printing byte `b` at cursor `cursor`: a byte other
/// than a newline is shown at the cursor; a newline or the end of a line moves the
/// cursor to the start of the next line, and below the last line the screen
/// scrolls up.
pub open spec fn print_byte_result(vram: Seq<u8>, cursor: u16, b: u8) -> (Seq<u8>, u16) {
    let x = col_of(cursor as int);
    let y = row_of(cursor as int);
    let shown = if b != NEWLINE {
        show_spec(vram, x, y, b, CGA_STD_ATTR)
    } else {
        vram
    };
    if x + 1 >= CGA_COLUMNS || b == NEWLINE {
        if y + 1 >= CGA_ROWS {
            (
                scrolled(shown),
                cursor_reg(col_of(cursor_reg(0, y + 1) as int), row_of(cursor_reg(0, y + 1) as int) - 1),
            )
        } else {
            (shown, cursor_reg(0, y + 1))
        }
    } else {
        (shown, cursor_reg(x + 1, y))
    }
}

/// Video memory and cursor after deleting the byte before the cursor: the cell is
/// blanked and the cursor moves back onto it; at the start of a line nothing happens.
pub open spec fn del_result(vram: Seq<u8>, cursor: u16) -> (Seq<u8>, u16) {
    let x = col_of(cursor as int);
    let y = row_of(cursor as int);
    if x > 0 {
        (show_spec(vram, x - 1, y, SPACE, CGA_STD_ATTR), cursor_reg(x - 1, y))
    } else {
        (vram, cursor)
    }
}

/// The text screen: its video memory (a character byte and an attribute byte per
/// cell, row after row) and its 16-bit cursor position register.
pub struct CGA {
    vram: Vec<u8>,
    cursor: u16,
}

impl CGA {
    pub closed spec fn vram_spec(&self) -> Seq<u8> {
        self.vram@
    }

    pub closed spec fn cursor_spec(&self) -> u16 {
        self.cursor
    }

    pub open spec fn wf(&self) -> bool {
        self.vram_spec().len() == CGA_MEMORY_SIZE
    }

    /// Create a new screen with blank video memory and the cursor at (0, 0).
    pub fn new() -> (r: CGA)
        ensures
            r.wf(),
            r.cursor_spec() == 0,
            forall|i: int| 0 <= i < CGA_MEMORY_SIZE ==> r.vram_spec()[i] == 0,
    {
        CGA { vram: vec![0u8; CGA_MEMORY_SIZE], cursor: 0 }
    }

    /// The video memory, for copying it to the screen.
    pub fn video_memory(&self) -> (r: &Vec<u8>)
        ensures
            r@ == self.vram_spec(),
    {
        &self.vram
    }

    /// The cursor position register.
    pub fn cursor_register(&self) -> (r: u16)
        ensures
            r == self.cursor_spec(),
    {
        self.cursor
    }

    /// Clear CGA screen and set cursor position to (0, 0).
    pub fn clear(&mut self)
        requires
            old(self).wf(),
        ensures
            final(self).wf(),
            final(self).vram_spec() == cleared(old(self).vram_spec()),
            final(self).cursor_spec() == 0,
    {
        let ghost old_vram = self.vram@;
        let mut y: usize = 0;
        while y < CGA_ROWS
            invariant
                y <= CGA_ROWS,
                self.vram@.len() == CGA_MEMORY_SIZE,
                old_vram.len() == CGA_MEMORY_SIZE,
                forall|i: int|
                    0 <= i < CGA_MEMORY_SIZE ==> #[trigger] self.vram@[i] == if i < y * CGA_COLUMNS * 2 {
                        cleared(old_vram)[i]
                    } else {
                        old_vram[i]
                    },
            decreases CGA_ROWS - y,
        {
            let mut x: usize = 0;
            while x < CGA_COLUMNS
                invariant
                    y < CGA_ROWS,
                    x <= CGA_COLUMNS,
                    self.vram@.len() == CGA_MEMORY_SIZE,
                    old_vram.len() == CGA_MEMORY_SIZE,
                    forall|i: int|
                        0 <= i < CGA_MEMORY_SIZE ==> #[trigger] self.vram@[i] == if i < (y
                            * CGA_COLUMNS + x) * 2 {
                            cleared(old_vram)[i]
                        } else {
                            old_vram[i]
                        },
                decreases CGA_COLUMNS - x,
            {
                let pos = (y * CGA_COLUMNS + x) * 2;
                self.vram.set(pos, SPACE);
                self.vram.set(pos + 1, CGA_STD_ATTR);
                x = x + 1;
            }
            y = y + 1;
        }
        assert(self.vram@ =~= cleared(old_vram));
        self.setpos(0, 0);
    }

    /// Display the `character` at the given position `x`,`y` with attribute `attrib`.
    pub fn show(&mut self, x: usize, y: usize, character: u8, attrib: u8)
        requires
            old(self).wf(),
        ensures
            final(self).wf(),
            final(self).vram_spec() == show_spec(old(self).vram_spec(), x as int, y as int, character, attrib),
            final(self).cursor_spec() == old(self).cursor_spec(),
    {
        if x > CGA_COLUMNS || y > CGA_ROWS {
            return;
        }
        let pos = (y * CGA_COLUMNS + x) * 2;
        self.vram.set(pos, character);
        self.vram.set(pos + 1, attrib);
    }

    /// Return cursor position `x`,`y`.
    pub fn getpos(&self) -> (r: (usize, usize))
        ensures
            r.0 == col_of(self.cursor_spec() as int),
            r.1 == row_of(self.cursor_spec() as int),
    {
        let pos = self.cursor as usize;
        let y = pos / CGA_COLUMNS;
        let x = pos - (y * 80);
        (x, y)
    }

    /// Set cursor position `x`,`y`.
    pub fn setpos(&mut self, x: usize, y: usize)
        requires
            y * CGA_COLUMNS + x <= usize::MAX,
        ensures
            final(self).cursor_spec() == cursor_reg(x as int, y as int),
            final(self).vram_spec() == old(self).vram_spec(),
    {
        let pos = y * CGA_COLUMNS + x;
        let pos_low = (pos % 256) as u8;
        let pos_high = ((pos >> 8) % 256) as u8;
        assert(pos >> 8 == pos / 256) by (bit_vector);
        self.cursor = (pos_high as u16) * 256 + (pos_low as u16);
    }

    /// Print byte `b` at the cursor position and advance the cursor; a newline or
    /// the end of a line moves it to the start of the next line, and below the last
    /// line the screen scrolls up.
    pub fn print_byte(&mut self, b: u8)
        requires
            old(self).wf(),
            b == NEWLINE ==> old(self).cursor_spec() < LAST_WRAP_ROW_START,
        ensures
            final(self).wf(),
            old(self).cursor_spec() < LAST_WRAP_ROW_START ==> final(self).cursor_spec() < LAST_WRAP_ROW_START,
            (final(self).vram_spec(), final(self).cursor_spec()) == print_byte_result(
                old(self).vram_spec(),
                old(self).cursor_spec(),
                b,
            ),
    {
        let (x, y) = self.getpos();
        let color = self.attribute(Color::Black, Color::Green, false);
        assert((0u8 << 7u8) | (0u8 << 4u8) | 2u8 == 2u8) by (bit_vector);
        assert(color == CGA_STD_ATTR);
        if b != NEWLINE {
            self.show(x, y, b, color);
        }
        // handle '\n' and x/y above screen height/width
        if x + 1 >= CGA_COLUMNS || b == NEWLINE {
            self.setpos(0, y + 1);
            if y + 1 >= CGA_ROWS {
                self.scrollup();
            }
        } else {
            self.setpos(x + 1, y);
        }
    }

    /// Deletes the last printed byte: moves the cursor back, blanks the cell and
    /// leaves the cursor there.
    pub fn del(&mut self)
        requires
            old(self).wf(),
        ensures
            final(self).wf(),
            (final(self).vram_spec(), final(self).cursor_spec()) == del_result(
                old(self).vram_spec(),
                old(self).cursor_spec(),
            ),
    {
        let (x, y) = self.getpos();
        if x > 0 {
            self.setpos(x - 1, y);
            proof {
                lemma_cursor_reg_small(x - 1, y as int);
            }
            self.print_byte(SPACE);
            self.setpos(x - 1, y);
        }
    }

    /// Scroll text lines by one to the top; the cursor moves up by one line.
    pub fn scrollup(&mut self)
        requires
            old(self).wf(),
            row_of(old(self).cursor_spec() as int) >= 1,
        ensures
            final(self).wf(),
            final(self).vram_spec() == scrolled(old(self).vram_spec()),
            final(self).cursor_spec() == cursor_reg(
                col_of(old(self).cursor_spec() as int),
                row_of(old(self).cursor_spec() as int) - 1,
            ),
    {
        let ghost old_vram = self.vram@;
        // copy row k+1 to row k
        let mut y: usize = 0;
        while y < CGA_ROWS - 1
            invariant
                y <= CGA_ROWS - 1,
                self.vram@.len() == CGA_MEMORY_SIZE,
                old_vram.len() == CGA_MEMORY_SIZE,
                forall|i: int|
                    0 <= i < CGA_MEMORY_SIZE ==> #[trigger] self.vram@[i] == if i < y * CGA_COLUMNS * 2 {
                        old_vram[i + CGA_COLUMNS * 2]
                    } else {
                        old_vram[i]
                    },
                self.cursor == old(self).cursor,
                row_of(old(self).cursor_spec() as int) >= 1,
            decreases CGA_ROWS - 1 - y,
        {
            let mut x: usize = 0;
            while x < CGA_COLUMNS
                invariant
                    y < CGA_ROWS - 1,
                    x <= CGA_COLUMNS,
                    self.cursor == old(self).cursor,
                    self.vram@.len() == CGA_MEMORY_SIZE,
                    old_vram.len() == CGA_MEMORY_SIZE,
                    forall|i: int|
                        0 <= i < CGA_MEMORY_SIZE ==> #[trigger] self.vram@[i] == if i < (y
                            * CGA_COLUMNS + x) * 2 {
                            old_vram[i + CGA_COLUMNS * 2]
                        } else {
                            old_vram[i]
                        },
                decreases CGA_COLUMNS - x,
            {
                let pos = (y * CGA_COLUMNS + x) * 2;
                let pos_next_row = ((y + 1) * CGA_COLUMNS + x) * 2;
                let next_char = self.vram[pos_next_row];
                let next_attrib = self.vram[pos_next_row + 1];
                self.vram.set(pos, next_char);
                self.vram.set(pos + 1, next_attrib);
                x = x + 1;
            }
            y = y + 1;
        }
        // clear last row
        let mut x: usize = 0;
        while x < CGA_COLUMNS
            invariant
                x <= CGA_COLUMNS,
                self.vram@.len() == CGA_MEMORY_SIZE,
                old_vram.len() == CGA_MEMORY_SIZE,
                forall|i: int|
                    0 <= i < CGA_MEMORY_SIZE ==> #[trigger] self.vram@[i] == if i < (CGA_ROWS - 1)
                        * CGA_COLUMNS * 2 {
                        old_vram[i + CGA_COLUMNS * 2]
                    } else if i < ((CGA_ROWS - 1) * CGA_COLUMNS + x) * 2 {
                        scrolled(old_vram)[i]
                    } else {
                        old_vram[i]
                    },
                self.cursor == old(self).cursor,
                row_of(old(self).cursor_spec() as int) >= 1,
            decreases CGA_COLUMNS - x,
        {
            let pos = ((CGA_ROWS - 1) * CGA_COLUMNS + x) * 2;
            self.vram.set(pos, SPACE);
            self.vram.set(pos + 1, CGA_STD_ATTR);
            x = x + 1;
        }
        assert(self.vram@ =~= scrolled(old_vram));
        // set cursor to same position as before
        let (x, y) = self.getpos();
        self.setpos(x, y - 1);
    }

    /// Helper function returning an attribute byte for the given parameters `bg`, `fg`, and `blink`.
    pub fn attribute(&self, bg: Color, fg: Color, blink: bool) -> (r: u8)
        ensures
            r == attribute_spec(bg, fg, blink),
    {
        let b: u8 = if blink {
            1
        } else {
            0
        };
        let bgv = bg.value();
        let fgv = fg.value();
        (b << 7u8) | (bgv << 4u8) | fgv
    }

    /// Print each byte of `s`; bytes outside printable ASCII (other than newline)
    /// are shown as a block.
    pub fn write_str(&mut self, s: &str)
        requires
            old(self).wf(),
            old(self).cursor_spec() < LAST_WRAP_ROW_START,
        ensures
            final(self).wf(),
            final(self).cursor_spec() < LAST_WRAP_ROW_START,
            (final(self).vram_spec(), final(self).cursor_spec()) == write_result(
                old(self).vram_spec(),
                old(self).cursor_spec(),
                s.spec_bytes(),
            ),
    {
        let bytes = s.as_bytes();
        let mut i: usize = 0;
        while i < bytes.len()
            invariant
                self.wf(),
                self.cursor_spec() < LAST_WRAP_ROW_START,
                i <= bytes@.len(),
                bytes@ == s.spec_bytes(),
                (self.vram_spec(), self.cursor_spec()) == write_result(
                    old(self).vram_spec(),
                    old(self).cursor_spec(),
                    bytes@.subrange(0, i as int),
                ),
            decreases bytes@.len() - i,
        {
            let byte = bytes[i];
            proof {
                let sub = bytes@.subrange(0, i + 1);
                assert(sub.drop_last() == bytes@.subrange(0, i as int));
                assert(sub.last() == byte);
            }
            if (0x20 <= byte && byte <= 0x7e) || byte == NEWLINE {
                self.print_byte(byte);
            } else {
                self.print_byte(NON_PRINTABLE);
            }
            i = i + 1;
        }
        assert(bytes@.subrange(0, bytes@.len() as int) == bytes@);
    }
}

/// The byte that stands for `b` on the screen: itself if printable ASCII or a
/// newline, else a block.
pub open spec fn screen_byte(b: u8) -> u8 {
    if (0x20 <= b <= 0x7e) || b == NEWLINE {
        b
    } else {
        NON_PRINTABLE
    }
}

/// Video memory and cursor after printing the bytes `bs`.
pub open spec fn write_result(vram: Seq<u8>, cursor: u16, bs: Seq<u8>) -> (Seq<u8>, u16)
    decreases bs.len(),
{
    if bs.len() == 0 {
        (vram, cursor)
    } else {
        let (v, c) = write_result(vram, cursor, bs.drop_last());
        print_byte_result(v, c, screen_byte(bs.last()))
    }
}

proof fn lemma_cursor_reg_small(x: int, y: int)
    requires
        0 <= x < CGA_COLUMNS,
        0 <= y,
        y * CGA_COLUMNS + x < 0x10000,
    ensures
        col_of(cursor_reg(x, y) as int) == x,
        row_of(cursor_reg(x, y) as int) == y,
{
    assert((y * 80 + x) % 0x10000 == y * 80 + x);
    assert((y * 80 + x) / 80 == y) by (nonlinear_arith)
        requires
            0 <= x < 80,
            0 <= y,
    ;
    assert((y * 80 + x) % 80 == x) by (nonlinear_arith)
        requires
            0 <= x < 80,
            0 <= y,
    ;
}

/// Setting the cursor and reading it back gives the same position, for any cell
/// that the 16-bit register can address.
pub proof fn law_setpos_getpos(x: int, y: int)
    requires
        0 <= x < CGA_COLUMNS,
        0 <= y,
        y * CGA_COLUMNS + x < 0x10000,
    ensures
        col_of(cursor_reg(x, y) as int) == x,
        row_of(cursor_reg(x, y) as int) == y,
{
    lemma_cursor_reg_small(x, y);
}

} // verus!
