use vstd::prelude::*;

verus! {

/// Framebuffer color white.
pub const WHITE: u32 = 0x00ff_ffff;

/// Framebuffer color black.
pub const BLACK: u32 = 0;

/// Color of text that no call colored otherwise.
pub const DEFAULT_COLOR: u32 = WHITE;

/// The glyph drawn as text cursor.
pub const CURSOR_GLYPH: char = '_';

/// The glyph that erases a cell.
pub const BLANK_GLYPH: char = ' ';

/// A drawing command for the linear framebuffer, in pixels.
#[derive(PartialEq, Eq, Structural, Clone, Copy, Debug)]
pub enum DrawOp {
    /// Draw the glyph of `c` with its upper left corner at (`x`, `y`).
    Glyph { x: u32, y: u32, color: u32, c: char },
    /// Fill the rectangle of `w` by `h` pixels at (`x`, `y`).
    FillRect { x: u32, y: u32, w: u32, h: u32, color: u32 },
    /// Move the `height` pixel rows that start `by` rows below row `y` up to row `y`.
    ScrollUp { y: u32, height: u32, by: u32 },
}

/// The state of a terminal, as seen by contracts.
pub struct TerminalView {
    pub cursor_x: u32,
    pub cursor_y: u32,
    pub width: u32,
    pub height: u32,
    pub screen_width_px: u32,
    pub screen_height_px: u32,
    pub viewport_y_px: u32,
    pub viewport_height_px: u32,
    pub char_width: u32,
    pub char_height: u32,
    pub color: u32,
}

pub open spec fn max1(a: int) -> int {
    if a < 1 { 1 } else { a }
}

impl TerminalView {
    /// The layout fits the screen and the cursor lies in the text area (one past
    /// the last column is where the next character wraps).
    pub open spec fn wf(self) -> bool {
        &&& self.char_width > 0
        &&& self.char_height > 0
        &&& self.viewport_y_px == 0
        &&& self.viewport_height_px <= self.screen_height_px
        &&& self.width == max1(self.screen_width_px as int / (self.char_width as int))
        &&& self.height == max1(self.viewport_height_px as int / (self.char_height as int))
        &&& self.cursor_x <= self.width
        &&& self.cursor_y < self.height
    }

    /// Pixel row of text row `row`.
    pub open spec fn pixel_y(self, row: int) -> int {
        self.viewport_y_px + row * self.char_height
    }

    /// The same terminal with the cursor at (`x`, `y`).
    pub open spec fn with_cursor(self, x: u32, y: u32) -> TerminalView {
        TerminalView { cursor_x: x, cursor_y: y, ..self }
    }

    /// The same terminal drawing in `color`.
    pub open spec fn with_color(self, color: u32) -> TerminalView {
        TerminalView { color: color, ..self }
    }

    /// The layout for the upper half of the screen (`enabled`) or the whole screen:
    /// the text area is aligned to whole lines and the cursor kept inside.
    pub open spec fn layout(self, enabled: bool) -> TerminalView {
        let target: int = if enabled { self.screen_height_px as int / 2 } else { self.screen_height_px as int };
        let aligned: int = max1(target / (self.char_height as int)) * self.char_height;
        let vh: int = if aligned <= self.screen_height_px { aligned } else { self.screen_height_px as int };
        let w: int = max1(self.screen_width_px as int / (self.char_width as int));
        let h: int = max1(vh / (self.char_height as int));
        TerminalView {
            cursor_x: if self.cursor_x >= w { (w - 1) as u32 } else { self.cursor_x },
            cursor_y: if self.cursor_y >= h { (h - 1) as u32 } else { self.cursor_y },
            width: w as u32,
            height: h as u32,
            viewport_y_px: 0,
            viewport_height_px: vh as u32,
            ..self
        }
    }

    /// What moving the text area one line up draws.
    pub open spec fn scroll_ops(self) -> Seq<DrawOp> {
        if self.viewport_height_px <= self.char_height {
            seq![
                DrawOp::FillRect {
                    x: 0,
                    y: self.viewport_y_px,
                    w: self.screen_width_px,
                    h: self.viewport_height_px,
                    color: BLACK,
                },
            ]
        } else {
            seq![
                DrawOp::ScrollUp {
                    y: self.viewport_y_px,
                    height: (self.viewport_height_px - self.char_height) as u32,
                    by: self.char_height,
                },
                DrawOp::FillRect {
                    x: 0,
                    y: (self.viewport_y_px + self.viewport_height_px - self.char_height) as u32,
                    w: self.screen_width_px,
                    h: self.char_height,
                    color: BLACK,
                },
            ]
        }
    }

    /// A line feed: the cursor moves to the start of the next line; below the last
    /// line the text scrolls up and the cursor stays on the last line.
    pub open spec fn newline_spec(self) -> (TerminalView, Seq<DrawOp>) {
        if self.cursor_y + 1 >= self.height {
            (self.with_cursor(0, (self.height - 1) as u32), self.scroll_ops())
        } else {
            (self.with_cursor(0, (self.cursor_y + 1) as u32), Seq::empty())
        }
    }

    /// Printing one character: a newline feeds the line; another character wraps
    /// first if the line is full, is drawn at the cursor, and advances it.
    pub open spec fn put_char_spec(self, c: char) -> (TerminalView, Seq<DrawOp>) {
        if c == '\n' {
            self.newline_spec()
        } else {
            let (t, ops) = if self.cursor_x >= self.width {
                self.newline_spec()
            } else {
                (self, Seq::empty())
            };
            let glyph = DrawOp::Glyph {
                x: (t.cursor_x * t.char_width) as u32,
                y: t.pixel_y(t.cursor_y as int) as u32,
                color: t.color,
                c: c,
            };
            (t.with_cursor((t.cursor_x + 1) as u32, t.cursor_y), ops.push(glyph))
        }
    }

    /// Printing the characters `cs` one after the other.
    pub open spec fn print_spec(self, cs: Seq<char>) -> (TerminalView, Seq<DrawOp>)
        decreases cs.len(),
    {
        if cs.len() == 0 {
            (self, Seq::empty())
        } else {
            let (t, ops) = self.print_spec(cs.drop_last());
            let (t2, ops2) = t.put_char_spec(cs.last());
            (t2, ops + ops2)
        }
    }

    /// Drawing `c` at the cursor in the default color.
    pub open spec fn cursor_glyph(self, c: char) -> DrawOp {
        DrawOp::Glyph {
            x: (self.cursor_x * self.char_width) as u32,
            y: self.pixel_y(self.cursor_y as int) as u32,
            color: DEFAULT_COLOR,
            c: c,
        }
    }
}

/// A text terminal on the linear framebuffer. It keeps the cursor and the layout
/// and tells, for each output, what to draw.
pub struct Terminal {
    cursor_x: u32,
    cursor_y: u32,
    width: u32,
    height: u32,
    screen_width_px: u32,
    screen_height_px: u32,
    viewport_y_px: u32,
    viewport_height_px: u32,
    char_width: u32,
    char_height: u32,
    color: u32,
}

impl View for Terminal {
    type V = TerminalView;

    closed spec fn view(&self) -> TerminalView {
        TerminalView {
            cursor_x: self.cursor_x,
            cursor_y: self.cursor_y,
            width: self.width,
            height: self.height,
            screen_width_px: self.screen_width_px,
            screen_height_px: self.screen_height_px,
            viewport_y_px: self.viewport_y_px,
            viewport_height_px: self.viewport_height_px,
            char_width: self.char_width,
            char_height: self.char_height,
            color: self.color,
        }
    }
}

proof fn lemma_div_mul_le(a: int, b: int)
    requires
        0 <= a,
        0 < b,
    ensures
        (a / b) * b <= a,
        0 <= a / b,
{
    assert((a / b) * b <= a) by (nonlinear_arith)
        requires
            0 <= a,
            0 < b,
    ;
    assert(0 <= a / b) by (nonlinear_arith)
        requires
            0 <= a,
            0 < b,
    ;
}

/// `k * m` stays within `max1(a / m) * m`, which fits in 32 bits.
proof fn lemma_scaled_fits(k: int, a: int, m: int)
    requires
        0 <= k <= max1(a / m),
        0 <= a <= u32::MAX,
        0 < m <= u32::MAX,
    ensures
        0 <= k * m <= max1(a / m) * m,
        max1(a / m) * m <= u32::MAX,
{
    lemma_div_mul_le(a, m);
    assert(k * m <= max1(a / m) * m) by (nonlinear_arith)
        requires
            0 <= k <= max1(a / m),
            0 < m,
    ;
    assert(0 <= k * m) by (nonlinear_arith)
        requires
            0 <= k,
            0 < m,
    ;
}

/// Printing moves the cursor and changes nothing else of the terminal.
pub proof fn lemma_print_moves_only_cursor(t: TerminalView, cs: Seq<char>)
    ensures
        t.print_spec(cs).0 == t.with_cursor(t.print_spec(cs).0.cursor_x, t.print_spec(cs).0.cursor_y),
    decreases cs.len(),
{
    if cs.len() > 0 {
        lemma_print_moves_only_cursor(t, cs.drop_last());
    }
}

/// Printing `a` and then `b` leaves the terminal as printing `a + b` does and draws
/// the same.
pub proof fn law_print_concat(t: TerminalView, a: Seq<char>, b: Seq<char>)
    ensures
        t.print_spec(a + b).0 == t.print_spec(a).0.print_spec(b).0,
        t.print_spec(a + b).1 == t.print_spec(a).1 + t.print_spec(a).0.print_spec(b).1,
    decreases b.len(),
{
    if b.len() == 0 {
        assert(a + b == a);
        assert(t.print_spec(a).1 + Seq::<DrawOp>::empty() == t.print_spec(a).1);
    } else {
        law_print_concat(t, a, b.drop_last());
        assert((a + b).drop_last() == a + b.drop_last());
        assert((a + b).last() == b.last());
        let mid = t.print_spec(a).0;
        let p1 = t.print_spec(a).1;
        let p2 = mid.print_spec(b.drop_last()).1;
        let p3 = mid.print_spec(b.drop_last()).0.put_char_spec(b.last()).1;
        assert(p1 + p2 + p3 == p1 + (p2 + p3));
    }
}

impl Terminal {
    /// A terminal for a screen of `screen_width_px` by `screen_height_px` pixels
    /// and glyphs of `char_width` by `char_height` pixels, using the whole screen.
    pub fn new(screen_width_px: u32, screen_height_px: u32, char_width: u32, char_height: u32) -> (r: Terminal)
        requires
            char_width > 0,
            char_height > 0,
        ensures
            r@.wf(),
            r@ == (TerminalView {
                cursor_x: 0,
                cursor_y: 0,
                width: 1,
                height: 1,
                screen_width_px,
                screen_height_px,
                viewport_y_px: 0,
                viewport_height_px: 0,
                char_width,
                char_height,
                color: DEFAULT_COLOR,
            }).layout(false),
    {
        let mut terminal = Terminal {
            cursor_x: 0,
            cursor_y: 0,
            width: 1,
            height: 1,
            screen_width_px,
            screen_height_px,
            viewport_y_px: 0,
            viewport_height_px: 0,
            char_width,
            char_height,
            color: DEFAULT_COLOR,
        };
        terminal.set_upper_half_mode(false);
        terminal
    }

    /// Use the upper half of the screen for text (`enabled`) or the whole screen;
    /// the height is aligned to whole lines and the cursor kept inside.
    pub fn set_upper_half_mode(&mut self, enabled: bool)
        requires
            old(self)@.char_width > 0,
            old(self)@.char_height > 0,
        ensures
            final(self)@.wf(),
            final(self)@ == old(self)@.layout(enabled),
    {
        let target_height = if enabled {
            self.screen_height_px / 2
        } else {
            self.screen_height_px
        };
        let lines = target_height / self.char_height;
        let lines = if lines < 1 { 1 } else { lines };
        proof {
            lemma_scaled_fits(lines as int, target_height as int, self.char_height as int);
        }
        let aligned_height = lines * self.char_height;
        self.viewport_y_px = 0;
        self.viewport_height_px = if aligned_height <= self.screen_height_px {
            aligned_height
        } else {
            self.screen_height_px
        };
        let w = self.screen_width_px / self.char_width;
        self.width = if w < 1 { 1 } else { w };
        let h = self.viewport_height_px / self.char_height;
        self.height = if h < 1 { 1 } else { h };
        if self.cursor_x >= self.width {
            self.cursor_x = self.width - 1;
        }
        if self.cursor_y >= self.height {
            self.cursor_y = self.height - 1;
        }
    }

    /// Clear the text area; the cursor goes to the start of the second line (the
    /// first one if there is only one).
    pub fn clear(&mut self) -> (op: DrawOp)
        requires
            old(self)@.wf(),
        ensures
            final(self)@.wf(),
            final(self)@ == old(self)@.with_cursor(0, if old(self)@.height > 1 { 1 } else { 0 }),
            op == (DrawOp::FillRect {
                x: 0,
                y: old(self)@.viewport_y_px,
                w: old(self)@.screen_width_px,
                h: old(self)@.viewport_height_px,
                color: BLACK,
            }),
    {
        let op = DrawOp::FillRect {
            x: 0,
            y: self.viewport_y_px,
            w: self.screen_width_px,
            h: self.viewport_height_px,
            color: BLACK,
        };
        self.cursor_x = 0;
        self.cursor_y = if self.height > 1 {
            1
        } else {
            0
        };
        op
    }

    /// Pixel row of text row `row`.
    fn pixel_y(&self, row: u32) -> (r: u32)
        requires
            self@.wf(),
            row < self@.height,
        ensures
            r == self@.pixel_y(row as int),
    {
        proof {
            lemma_scaled_fits(row as int, self.viewport_height_px as int, self.char_height as int);
        }
        self.viewport_y_px + row * self.char_height
    }

    /// Column `col` in pixels.
    fn pixel_x(&self, col: u32) -> (r: u32)
        requires
            self@.wf(),
            col <= self@.width,
        ensures
            r == col * self@.char_width,
    {
        proof {
            lemma_scaled_fits(col as int, self.screen_width_px as int, self.char_width as int);
        }
        col * self.char_width
    }

    /// Draw the cursor glyph at the cursor.
    pub fn draw_cursor(&self) -> (op: DrawOp)
        requires
            self@.wf(),
        ensures
            op == self@.cursor_glyph(CURSOR_GLYPH),
    {
        DrawOp::Glyph {
            x: self.pixel_x(self.cursor_x),
            y: self.pixel_y(self.cursor_y),
            color: DEFAULT_COLOR,
            c: CURSOR_GLYPH,
        }
    }

    /// Erase the cursor glyph at the cursor.
    pub fn erase_cursor(&self) -> (op: DrawOp)
        requires
            self@.wf(),
        ensures
            op == self@.cursor_glyph(BLANK_GLYPH),
    {
        DrawOp::Glyph {
            x: self.pixel_x(self.cursor_x),
            y: self.pixel_y(self.cursor_y),
            color: DEFAULT_COLOR,
            c: BLANK_GLYPH,
        }
    }

    fn scroll(&self, ops: &mut Vec<DrawOp>)
        requires
            self@.wf(),
        ensures
            final(ops)@ == old(ops)@ + self@.scroll_ops(),
    {
        if self.viewport_height_px <= self.char_height {
            ops.push(
                DrawOp::FillRect {
                    x: 0,
                    y: self.viewport_y_px,
                    w: self.screen_width_px,
                    h: self.viewport_height_px,
                    color: BLACK,
                },
            );
            return ;
        }
        ops.push(
            DrawOp::ScrollUp {
                y: self.viewport_y_px,
                height: self.viewport_height_px - self.char_height,
                by: self.char_height,
            },
        );
        let clear_y = self.viewport_y_px + self.viewport_height_px - self.char_height;
        ops.push(
            DrawOp::FillRect { x: 0, y: clear_y, w: self.screen_width_px, h: self.char_height, color: BLACK },
        );
    }

    fn newline(&mut self, ops: &mut Vec<DrawOp>)
        requires
            old(self)@.wf(),
        ensures
            final(self)@.wf(),
            final(self)@ == old(self)@.newline_spec().0,
            final(ops)@ == old(ops)@ + old(self)@.newline_spec().1,
    {
        self.cursor_x = 0;
        if self.cursor_y + 1 >= self.height {
            self.scroll(ops);
            self.cursor_y = self.height - 1;
        } else {
            self.cursor_y = self.cursor_y + 1;
            assert(ops@ == old(ops)@ + Seq::<DrawOp>::empty());
        }
    }

    fn put_char(&mut self, c: char, ops: &mut Vec<DrawOp>)
        requires
            old(self)@.wf(),
        ensures
            final(self)@.wf(),
            final(self)@ == old(self)@.put_char_spec(c).0,
            final(ops)@ == old(ops)@ + old(self)@.put_char_spec(c).1,
    {
        if c == '\n' {
            self.newline(ops);
            return ;
        }
        let ghost ops0 = ops@;
        if self.cursor_x >= self.width {
            self.newline(ops);
        } else {
            assert(ops@ == ops0 + Seq::<DrawOp>::empty());
        }
        let ghost ops1 = ops@;
        let glyph = DrawOp::Glyph {
            x: self.pixel_x(self.cursor_x),
            y: self.pixel_y(self.cursor_y),
            color: self.color,
            c: c,
        };
        ops.push(glyph);
        self.cursor_x = self.cursor_x + 1;
        assert(ops@ == ops0 + (ops1.subrange(ops0.len() as int, ops1.len() as int)).push(glyph));
    }

    /// Print each character of `s`; returns what to draw.
    pub fn print_string(&mut self, s: &str) -> (ops: Vec<DrawOp>)
        requires
            old(self)@.wf(),
        ensures
            final(self)@.wf(),
            final(self)@ == old(self)@.print_spec(s@).0,
            ops@ == old(self)@.print_spec(s@).1,
    {
        broadcast use vstd::string::axiom_spec_iter;

        let mut ops: Vec<DrawOp> = Vec::new();
        let ghost start = self@;
        for c in it: s.chars()
            invariant
                it.seq() == s@,
                self@.wf(),
                (self@, ops@) == start.print_spec(s@.take(it.index() as int)),
        {
            assert(s@.take(it.index() as int + 1).drop_last() == s@.take(it.index() as int));
            self.put_char(c, &mut ops);
        }
        assert(s@.take(s@.len() as int) == s@);
        ops
    }

    /// Print `s` in `color`; afterwards the default color is in use again.
    pub fn print_string_colored(&mut self, color: u32, s: &str) -> (ops: Vec<DrawOp>)
        requires
            old(self)@.wf(),
        ensures
            final(self)@.wf(),
            final(self)@ == old(self)@.with_color(color).print_spec(s@).0.with_color(DEFAULT_COLOR),
            ops@ == old(self)@.with_color(color).print_spec(s@).1,
    {
        self.color = color;
        let ops = self.print_string(s);
        self.color = DEFAULT_COLOR;
        ops
    }

    /// Print `s` starting at column `x`, row `y` (each clamped to the text area);
    /// the cursor is where it was before.
    pub fn print_string_at(&mut self, x: u32, y: u32, s: &str) -> (ops: Vec<DrawOp>)
        requires
            old(self)@.wf(),
        ensures
            final(self)@ == old(self)@,
            ({
                let o = old(self)@;
                let cx = if x < o.width - 1 { x } else { (o.width - 1) as u32 };
                let cy = if y < o.height - 1 { y } else { (o.height - 1) as u32 };
                ops@ == o.with_cursor(cx, cy).print_spec(s@).1
            }),
    {
        let saved_cursor_x = self.cursor_x;
        let saved_cursor_y = self.cursor_y;
        self.cursor_x = if x < self.width - 1 {
            x
        } else {
            self.width - 1
        };
        self.cursor_y = if y < self.height - 1 {
            y
        } else {
            self.height - 1
        };
        let ghost t = self@;
        let ops = self.print_string(s);
        proof {
            lemma_print_moves_only_cursor(t, s@);
        }
        self.cursor_x = saved_cursor_x;
        self.cursor_y = saved_cursor_y;
        ops
    }

    /// Erase the cursor and move it one cell back; from the start of a line it
    /// goes to the last column of the line above, and at the very start it stays.
    pub fn erase_char_on_screen(&mut self) -> (op: DrawOp)
        requires
            old(self)@.wf(),
        ensures
            final(self)@.wf(),
            op == old(self)@.cursor_glyph(BLANK_GLYPH),
            ({
                let o = old(self)@;
                final(self)@ == if o.cursor_x == 0 {
                    if o.cursor_y == 0 {
                        o
                    } else {
                        o.with_cursor((o.width - 1) as u32, (o.cursor_y - 1) as u32)
                    }
                } else {
                    o.with_cursor((o.cursor_x - 1) as u32, o.cursor_y)
                }
            }),
    {
        let op = self.erase_cursor();
        if self.cursor_x == 0 {
            if self.cursor_y == 0 {
                return op;
            }
            self.cursor_y = self.cursor_y - 1;
            self.cursor_x = self.width;
        }
        self.cursor_x = self.cursor_x - 1;
        op
    }
}

} // verus!
