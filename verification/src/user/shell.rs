use vstd::prelude::*;
use crate::devices::terminal::{DrawOp, BLACK, WHITE};
use crate::library::text::{bytes_of, split_whitespace, views, words};
use crate::apps::shell::equals_str;
use crate::library::line_editor::{
    ascii_effect, history_index_after, is_printable, EditOutcome, LineEditor, KEY_BACKSPACE, KEY_ENTER,
};

verus! {

/// The prompt.
pub const PROMPT_LEN: u32 = 2;

/// Color of the prompt.
pub const PROMPT_COLOR: u32 = 0x0097_bf0d;

/// Color of ordinary text.
pub const TEXT_COLOR: u32 = WHITE;

/// Color of warnings and the banner.
pub const HIGHLIGHT_COLOR: u32 = 0x00aa_0000;

/// A program of the kernel that the shell runs in a thread of its own.
#[derive(PartialEq, Eq, Structural, Clone, Copy, Debug)]
pub enum KernelProgram {
    Echo,
    Time,
    Ps,
    Kill,
    Numbers,
    Graphic,
    Threads,
    Sound,
    Mouse,
    Heap,
    PciList,
    Network,
    Spinner,
}

impl KernelProgram {
    /// The program draws on the whole screen: the screen is cleared before it
    /// runs, and cleared again with the banner after it.
    pub open spec fn is_graphic_spec(self) -> bool {
        match self {
            KernelProgram::Graphic | KernelProgram::Threads | KernelProgram::Mouse => true,
            _ => false,
        }
    }

    /// The shell waits for the program's thread to end.
    pub open spec fn waits_spec(self) -> bool {
        match self {
            KernelProgram::Sound | KernelProgram::Spinner => false,
            _ => true,
        }
    }

    /// The program draws on the whole screen.
    pub fn is_graphic(self) -> (r: bool)
        ensures
            r == self.is_graphic_spec(),
    {
        match self {
            KernelProgram::Graphic | KernelProgram::Threads | KernelProgram::Mouse => true,
            _ => false,
        }
    }

    /// The shell waits for the program's thread to end.
    pub fn waits(self) -> (r: bool)
        ensures
            r == self.waits_spec(),
    {
        match self {
            KernelProgram::Sound | KernelProgram::Spinner => false,
            _ => true,
        }
    }

    /// The name of the program's thread.
    pub open spec fn thread_name_spec(self) -> Seq<char> {
        match self {
            KernelProgram::Echo => "echo"@,
            KernelProgram::Time => "time"@,
            KernelProgram::Ps => "ps"@,
            KernelProgram::Kill => "kill"@,
            KernelProgram::Numbers => "numbers"@,
            KernelProgram::Graphic => "graphic-demo"@,
            KernelProgram::Threads => "thread-demo"@,
            KernelProgram::Sound => "sound-demo"@,
            KernelProgram::Mouse => "mouse-demo"@,
            KernelProgram::Heap => "heap-demo"@,
            KernelProgram::PciList => "pci-list"@,
            KernelProgram::Network => "network"@,
            KernelProgram::Spinner => "spinner"@,
        }
    }

    /// The name of the program's thread.
    pub fn thread_name(self) -> (r: &'static str)
        ensures
            r@ == self.thread_name_spec(),
    {
        match self {
            KernelProgram::Echo => "echo",
            KernelProgram::Time => "time",
            KernelProgram::Ps => "ps",
            KernelProgram::Kill => "kill",
            KernelProgram::Numbers => "numbers",
            KernelProgram::Graphic => "graphic-demo",
            KernelProgram::Threads => "thread-demo",
            KernelProgram::Sound => "sound-demo",
            KernelProgram::Mouse => "mouse-demo",
            KernelProgram::Heap => "heap-demo",
            KernelProgram::PciList => "pci-list",
            KernelProgram::Network => "network",
            KernelProgram::Spinner => "spinner",
        }
    }
}

/// What a command line of the kernel shell asks for.
#[derive(Debug)]
pub enum KernelCommand {
    Help,
    Clear,
    Banner,
    History,
    /// Run `program` with the arguments `args` in a thread.
    Start { program: KernelProgram, args: Vec<Vec<u8>> },
    Reboot,
    Panic,
    /// An empty line.
    Empty,
    /// No command has the name.
    Unknown(Vec<u8>),
}

/// The program that the command `name` runs, if any.
pub open spec fn program_named(name: Seq<u8>) -> Option<KernelProgram> {
    if name == bytes_of("echo") {
        Some(KernelProgram::Echo)
    } else if name == bytes_of("time") {
        Some(KernelProgram::Time)
    } else if name == bytes_of("ps") {
        Some(KernelProgram::Ps)
    } else if name == bytes_of("kill") {
        Some(KernelProgram::Kill)
    } else if name == bytes_of("numbers") {
        Some(KernelProgram::Numbers)
    } else if name == bytes_of("graphic") {
        Some(KernelProgram::Graphic)
    } else if name == bytes_of("threads") {
        Some(KernelProgram::Threads)
    } else if name == bytes_of("sound") {
        Some(KernelProgram::Sound)
    } else if name == bytes_of("mouse") {
        Some(KernelProgram::Mouse)
    } else if name == bytes_of("heap") {
        Some(KernelProgram::Heap)
    } else if name == bytes_of("pci_list") {
        Some(KernelProgram::PciList)
    } else if name == bytes_of("network") {
        Some(KernelProgram::Network)
    } else if name == bytes_of("spinner") {
        Some(KernelProgram::Spinner)
    } else {
        None
    }
}

/// `c` is what the kernel shell makes of the words `ws` of a command line.
pub open spec fn kernel_command_matches(c: KernelCommand, ws: Seq<Seq<u8>>) -> bool {
    let name = if ws.len() > 0 {
        ws[0]
    } else {
        Seq::empty()
    };
    let args = if ws.len() > 0 {
        ws.drop_first()
    } else {
        Seq::empty()
    };
    if name == bytes_of("help") {
        c is Help
    } else if name == bytes_of("clear") {
        c is Clear
    } else if name == bytes_of("banner") {
        c is Banner
    } else if name == bytes_of("history") {
        c is History
    } else if program_named(name) is Some {
        c matches KernelCommand::Start { program, args: a } && program == program_named(name).unwrap()
            && views(a@) == args
    } else if name == bytes_of("reboot") {
        c is Reboot
    } else if name == bytes_of("panic") {
        c is Panic
    } else if name.len() == 0 {
        c is Empty
    } else {
        c matches KernelCommand::Unknown(n) && n@ == name
    }
}

fn program_for(name: &Vec<u8>) -> (r: Option<KernelProgram>)
    ensures
        r == program_named(name@),
{
    if equals_str(name, "echo") {
        Some(KernelProgram::Echo)
    } else if equals_str(name, "time") {
        Some(KernelProgram::Time)
    } else if equals_str(name, "ps") {
        Some(KernelProgram::Ps)
    } else if equals_str(name, "kill") {
        Some(KernelProgram::Kill)
    } else if equals_str(name, "numbers") {
        Some(KernelProgram::Numbers)
    } else if equals_str(name, "graphic") {
        Some(KernelProgram::Graphic)
    } else if equals_str(name, "threads") {
        Some(KernelProgram::Threads)
    } else if equals_str(name, "sound") {
        Some(KernelProgram::Sound)
    } else if equals_str(name, "mouse") {
        Some(KernelProgram::Mouse)
    } else if equals_str(name, "heap") {
        Some(KernelProgram::Heap)
    } else if equals_str(name, "pci_list") {
        Some(KernelProgram::PciList)
    } else if equals_str(name, "network") {
        Some(KernelProgram::Network)
    } else if equals_str(name, "spinner") {
        Some(KernelProgram::Spinner)
    } else {
        None
    }
}

/// Split a command line into words: the first names the command, the others
/// are its arguments.
pub fn execute_command(command_line: &Vec<u8>) -> (r: KernelCommand)
    ensures
        kernel_command_matches(r, words(command_line@)),
{
    let mut parts = split_whitespace(command_line.as_slice());
    let ghost ws = views(parts@);
    let name = if parts.len() > 0 {
        parts.remove(0)
    } else {
        Vec::new()
    };
    proof {
        if ws.len() > 0 {
            assert(ws[0] == name@);
            assert(views(parts@) == ws.drop_first());
        } else {
            assert(views(parts@) == Seq::<Seq<u8>>::empty());
        }
    }
    if equals_str(&name, "help") {
        KernelCommand::Help
    } else if equals_str(&name, "clear") {
        KernelCommand::Clear
    } else if equals_str(&name, "banner") {
        KernelCommand::Banner
    } else if equals_str(&name, "history") {
        KernelCommand::History
    } else {
        match program_for(&name) {
            Some(program) => KernelCommand::Start { program, args: parts },
            None => {
                if equals_str(&name, "reboot") {
                    KernelCommand::Reboot
                } else if equals_str(&name, "panic") {
                    KernelCommand::Panic
                } else if name.len() == 0 {
                    KernelCommand::Empty
                } else {
                    KernelCommand::Unknown(name)
                }
            },
        }
    }
}

/// The screen state of the shell, as seen by contracts.
pub struct ScreenView {
    pub cursor_x: u32,
    pub cursor_y: u32,
    pub char_width: u32,
    pub char_height: u32,
    pub width: u32,
    pub height: u32,
    pub screen_width_px: u32,
    pub screen_height_px: u32,
    pub color: u32,
    pub command_start_line: u32,
}

impl ScreenView {
    /// The text grid fits the screen and the cursor lies on it (one past the last
    /// column or row at most).
    pub open spec fn wf(self) -> bool {
        &&& self.char_width > 0
        &&& self.char_height > 0
        &&& self.width == self.screen_width_px / self.char_width
        &&& self.height == self.screen_height_px / self.char_height
        &&& self.width >= 1
        &&& 1 <= self.height < u32::MAX
        &&& self.cursor_x <= self.width
        &&& self.cursor_y <= self.height
    }

    pub open spec fn with_cursor(self, x: u32, y: u32) -> ScreenView {
        ScreenView { cursor_x: x, cursor_y: y, ..self }
    }

    /// What moving all text one line up draws.
    pub open spec fn scroll_ops(self) -> Seq<DrawOp> {
        seq![
            DrawOp::ScrollUp {
                y: 0,
                height: (self.screen_height_px - self.char_height) as u32,
                by: self.char_height,
            },
            DrawOp::FillRect {
                x: 0,
                y: (self.screen_height_px - self.char_height) as u32,
                w: self.screen_width_px,
                h: self.char_height,
                color: BLACK,
            },
        ]
    }

    /// A line feed: the cursor moves to the start of the next line; below the last
    /// line the text scrolls up, together with the line where the command started.
    pub open spec fn newline_spec(self) -> (ScreenView, Seq<DrawOp>) {
        if self.cursor_y + 1 >= self.height {
            (
                ScreenView {
                    cursor_x: 0,
                    cursor_y: (self.height - 1) as u32,
                    command_start_line: if self.command_start_line > 0 {
                        (self.command_start_line - 1) as u32
                    } else {
                        0
                    },
                    ..self
                },
                self.scroll_ops(),
            )
        } else {
            (self.with_cursor(0, (self.cursor_y + 1) as u32), Seq::empty())
        }
    }

    /// Writing the byte `c`.
    pub open spec fn put_byte_spec(self, c: u8) -> (ScreenView, Seq<DrawOp>) {
        if c == 0x0a {
            self.newline_spec()
        } else {
            let (t, ops) = if self.cursor_x >= self.width {
                self.newline_spec()
            } else {
                (self, Seq::empty())
            };
            let glyph = DrawOp::Glyph {
                x: (t.cursor_x * t.char_width) as u32,
                y: (t.cursor_y * t.char_height) as u32,
                color: t.color,
                c: c as char,
            };
            (t.with_cursor((t.cursor_x + 1) as u32, t.cursor_y), ops.push(glyph))
        }
    }

    /// Writing the bytes `s`.
    pub open spec fn write_spec(self, s: Seq<u8>) -> (ScreenView, Seq<DrawOp>)
        decreases s.len(),
    {
        if s.len() == 0 {
            (self, Seq::empty())
        } else {
            let (t, ops) = self.write_spec(s.drop_last());
            let (t2, ops2) = t.put_byte_spec(s.last());
            (t2, ops + ops2)
        }
    }

    /// Writing `s` at (`x`, `y`), where that is on the grid, and moving the cursor
    /// back where it was.
    pub open spec fn print_at_spec(self, x: u32, y: u32, s: Seq<u8>) -> (ScreenView, Seq<DrawOp>) {
        let t = if x <= self.width && y <= self.height {
            self.with_cursor(x, y)
        } else {
            self
        };
        let (t2, ops) = t.write_spec(s);
        let back = if self.cursor_x <= t2.width && self.cursor_y <= t2.height {
            t2.with_cursor(self.cursor_x, self.cursor_y)
        } else {
            t2
        };
        (back, ops)
    }

    /// Erasing the character before the cursor of a non-empty command line: not
    /// into the prompt; from the start of a line back to the end of the line above.
    pub open spec fn erase_char_spec(self) -> (ScreenView, Seq<DrawOp>) {
        if self.cursor_y == self.command_start_line && self.cursor_x <= PROMPT_LEN {
            (self, Seq::empty())
        } else {
            let (t, ops) = self.print_at_spec(self.cursor_x, self.cursor_y, seq![0x20u8]);
            let t2 = if t.cursor_x == 0 && t.cursor_y > t.command_start_line {
                t.with_cursor(t.width, (t.cursor_y - 1) as u32)
            } else {
                t
            };
            let t3 = if t2.cursor_x > 0 {
                t2.with_cursor((t2.cursor_x - 1) as u32, t2.cursor_y)
            } else {
                t2
            };
            (t3, ops)
        }
    }

    /// Erasing `n` characters of a non-empty command line.
    pub open spec fn erase_n_spec(self, n: nat) -> (ScreenView, Seq<DrawOp>)
        decreases n,
    {
        if n == 0 {
            (self, Seq::empty())
        } else {
            let (t, ops) = self.erase_n_spec((n - 1) as nat);
            let (t2, ops2) = t.erase_char_spec();
            (t2, ops + ops2)
        }
    }
}

/// Writing `a` and then `b` leaves the screen as writing `a + b` does and draws
/// the same.
pub proof fn law_write_concat(t: ScreenView, a: Seq<u8>, b: Seq<u8>)
    ensures
        t.write_spec(a + b).0 == t.write_spec(a).0.write_spec(b).0,
        t.write_spec(a + b).1 == t.write_spec(a).1 + t.write_spec(a).0.write_spec(b).1,
    decreases b.len(),
{
    if b.len() == 0 {
        assert(a + b == a);
        assert(t.write_spec(a).1 + Seq::<DrawOp>::empty() == t.write_spec(a).1);
    } else {
        law_write_concat(t, a, b.drop_last());
        assert((a + b).drop_last() == a + b.drop_last());
        assert((a + b).last() == b.last());
        let mid = t.write_spec(a).0;
        let p1 = t.write_spec(a).1;
        let p2 = mid.write_spec(b.drop_last()).1;
        let p3 = mid.write_spec(b.drop_last()).0.put_byte_spec(b.last()).1;
        assert(p1 + p2 + p3 == p1 + (p2 + p3));
    }
}

/// The kernel shell: its screen and its command line.
pub struct Shell {
    cursor_x: u32,
    cursor_y: u32,
    char_width: u32,
    char_height: u32,
    width: u32,
    height: u32,
    screen_width_px: u32,
    screen_height_px: u32,
    current_color: u32,
    command_start_line: u32,
    editor: LineEditor,
}

impl Shell {
    /// The screen state.
    pub closed spec fn screen(&self) -> ScreenView {
        ScreenView {
            cursor_x: self.cursor_x,
            cursor_y: self.cursor_y,
            char_width: self.char_width,
            char_height: self.char_height,
            width: self.width,
            height: self.height,
            screen_width_px: self.screen_width_px,
            screen_height_px: self.screen_height_px,
            color: self.current_color,
            command_start_line: self.command_start_line,
        }
    }

    /// The command line.
    pub closed spec fn editor_spec(&self) -> LineEditor {
        self.editor
    }

    pub open spec fn wf(&self) -> bool {
        &&& self.screen().wf()
        &&& self.editor_spec().wf()
    }

    /// A shell on a screen of `screen_width` by `screen_height` pixels with glyphs
    /// of `char_width` by `char_height` pixels; the cursor starts on the second line.
    pub fn new(screen_width: u32, screen_height: u32, char_width: u32, char_height: u32) -> (r: Shell)
        requires
            char_width > 0,
            char_height > 0,
            screen_width / char_width >= 1,
            1 <= screen_height / char_height < u32::MAX,
            screen_height / char_height >= 1,
        ensures
            r.wf(),
            r.screen() == (ScreenView {
                cursor_x: 0,
                cursor_y: if screen_height / char_height >= 1 { 1 } else { 0 },
                char_width,
                char_height,
                width: screen_width / char_width,
                height: screen_height / char_height,
                screen_width_px: screen_width,
                screen_height_px: screen_height,
                color: TEXT_COLOR,
                command_start_line: 1,
            }),
            r.editor_spec().buffer_spec() == Seq::<u8>::empty(),
            r.editor_spec().history_spec() == Seq::<Seq<u8>>::empty(),
    {
        Shell {
            cursor_x: 0,
            cursor_y: 1,
            char_width,
            char_height,
            width: screen_width / char_width,
            height: screen_height / char_height,
            screen_width_px: screen_width,
            screen_height_px: screen_height,
            current_color: TEXT_COLOR,
            command_start_line: 1,
            editor: LineEditor::new(),
        }
    }

    /// The command line.
    pub fn editor(&self) -> (r: &LineEditor)
        ensures
            *r == self.editor_spec(),
    {
        &self.editor
    }

    proof fn lemma_grid_fits(v: ScreenView)
        requires
            v.wf(),
        ensures
            v.width * v.char_width <= v.screen_width_px,
            v.height * v.char_height <= v.screen_height_px,
            v.char_height <= v.screen_height_px,
    {
        let sw = v.screen_width_px as int;
        let sh = v.screen_height_px as int;
        let cw = v.char_width as int;
        let ch = v.char_height as int;
        assert((sw / cw) * cw <= sw) by (nonlinear_arith)
            requires
                0 <= sw,
                0 < cw,
        ;
        assert((sh / ch) * ch <= sh) by (nonlinear_arith)
            requires
                0 <= sh,
                0 < ch,
        ;
        assert(ch <= (sh / ch) * ch) by (nonlinear_arith)
            requires
                1 <= sh / ch,
                0 < ch,
        ;
    }

    fn newline(&mut self, ops: &mut Vec<DrawOp>)
        requires
            old(self).wf(),
        ensures
            final(self).wf(),
            final(self).editor_spec() == old(self).editor_spec(),
            final(self).screen() == old(self).screen().newline_spec().0,
            final(ops)@ == old(ops)@ + old(self).screen().newline_spec().1,
    {
        proof {
            Shell::lemma_grid_fits(self.screen());
        }
        self.cursor_x = 0;
        if self.cursor_y + 1 >= self.height {
            ops.push(
                DrawOp::ScrollUp {
                    y: 0,
                    height: self.screen_height_px - self.char_height,
                    by: self.char_height,
                },
            );
            ops.push(
                DrawOp::FillRect {
                    x: 0,
                    y: self.screen_height_px - self.char_height,
                    w: self.screen_width_px,
                    h: self.char_height,
                    color: BLACK,
                },
            );
            self.cursor_y = self.height - 1;
            if self.command_start_line > 0 {
                self.command_start_line = self.command_start_line - 1;
            }
        } else {
            self.cursor_y = self.cursor_y + 1;
            assert(ops@ == old(ops)@ + Seq::<DrawOp>::empty());
        }
    }

    fn put_byte(&mut self, c: u8, ops: &mut Vec<DrawOp>)
        requires
            old(self).wf(),
        ensures
            final(self).wf(),
            final(self).editor_spec() == old(self).editor_spec(),
            final(self).screen() == old(self).screen().put_byte_spec(c).0,
            final(ops)@ == old(ops)@ + old(self).screen().put_byte_spec(c).1,
    {
        if c == 0x0a {
            self.newline(ops);
            return ;
        }
        let ghost ops0 = ops@;
        if self.cursor_x >= self.width {
            self.newline(ops);
        } else {
            assert(ops@ == ops0 + Seq::<DrawOp>::empty());
        }
        let ghost ops1 = ops@;
        proof {
            Shell::lemma_grid_fits(self.screen());
            assert(self.cursor_x * self.char_width <= self.width * self.char_width) by (nonlinear_arith)
                requires
                    self.cursor_x <= self.width,
            ;
            assert(self.cursor_y * self.char_height <= self.height * self.char_height) by (nonlinear_arith)
                requires
                    self.cursor_y <= self.height,
            ;
        }
        let glyph = DrawOp::Glyph {
            x: self.cursor_x * self.char_width,
            y: self.cursor_y * self.char_height,
            color: self.current_color,
            c: c as char,
        };
        ops.push(glyph);
        self.cursor_x = self.cursor_x + 1;
        assert(ops@ == ops0 + (ops1.subrange(ops0.len() as int, ops1.len() as int)).push(glyph));
    }

    /// Write the bytes `s` at the cursor; returns what to draw.
    pub fn write_str(&mut self, s: &[u8]) -> (ops: Vec<DrawOp>)
        requires
            old(self).wf(),
        ensures
            final(self).wf(),
            final(self).editor_spec() == old(self).editor_spec(),
            final(self).screen() == old(self).screen().write_spec(s@).0,
            ops@ == old(self).screen().write_spec(s@).1,
    {
        let mut ops: Vec<DrawOp> = Vec::new();
        let ghost start = self.screen();
        let mut i: usize = 0;
        while i < s.len()
            invariant
                i <= s@.len(),
                self.wf(),
                self.editor_spec() == old(self).editor_spec(),
                start == old(self).screen(),
                (self.screen(), ops@) == start.write_spec(s@.subrange(0, i as int)),
            decreases s@.len() - i,
        {
            assert(s@.subrange(0, i + 1).drop_last() == s@.subrange(0, i as int));
            assert(s@.subrange(0, i + 1).last() == s@[i as int]);
            self.put_byte(s[i], &mut ops);
            i = i + 1;
        }
        assert(s@.subrange(0, s@.len() as int) == s@);
        ops
    }

    fn set_cursor_position(&mut self, x: u32, y: u32)
        ensures
            final(self).editor_spec() == old(self).editor_spec(),
            final(self).screen() == if x <= old(self).screen().width && y <= old(self).screen().height {
                old(self).screen().with_cursor(x, y)
            } else {
                old(self).screen()
            },
    {
        if x <= self.width && y <= self.height {
            self.cursor_x = x;
            self.cursor_y = y;
        }
    }

    /// Write `s` at column `x`, row `y` (where these lie on the grid) and put the
    /// cursor back.
    pub fn print_at(&mut self, x: u32, y: u32, s: &[u8]) -> (ops: Vec<DrawOp>)
        requires
            old(self).wf(),
        ensures
            final(self).wf(),
            final(self).editor_spec() == old(self).editor_spec(),
            final(self).screen() == old(self).screen().print_at_spec(x, y, s@).0,
            ops@ == old(self).screen().print_at_spec(x, y, s@).1,
    {
        let current_x = self.cursor_x;
        let current_y = self.cursor_y;
        self.set_cursor_position(x, y);
        let ops = self.write_str(s);
        self.set_cursor_position(current_x, current_y);
        ops
    }

    /// Write `s` in `color`, then go back to the color in use before.
    pub fn print_colored(&mut self, color: u32, s: &[u8]) -> (ops: Vec<DrawOp>)
        requires
            old(self).wf(),
        ensures
            final(self).wf(),
            final(self).editor_spec() == old(self).editor_spec(),
            final(self).screen() == (ScreenView {
                color: old(self).screen().color,
                ..(ScreenView { color, ..old(self).screen() }).write_spec(s@).0
            }),
            ops@ == (ScreenView { color, ..old(self).screen() }).write_spec(s@).1,
    {
        let current_color = self.current_color;
        self.current_color = color;
        let ops = self.write_str(s);
        self.current_color = current_color;
        ops
    }

    /// Draw the cursor glyph at the cursor.
    pub fn draw_cursor(&mut self) -> (ops: Vec<DrawOp>)
        requires
            old(self).wf(),
        ensures
            final(self).wf(),
            final(self).editor_spec() == old(self).editor_spec(),
            final(self).screen() == old(self).screen().print_at_spec(
                old(self).screen().cursor_x,
                old(self).screen().cursor_y,
                seq![0x5fu8],
            ).0,
            ops@ == old(self).screen().print_at_spec(
                old(self).screen().cursor_x,
                old(self).screen().cursor_y,
                seq![0x5fu8],
            ).1,
    {
        let s: [u8; 1] = [0x5f];
        assert(s@ == seq![0x5fu8]);
        self.print_at(self.cursor_x, self.cursor_y, &s)
    }

    /// Erase the cursor glyph at the cursor.
    pub fn erase_cursor(&mut self) -> (ops: Vec<DrawOp>)
        requires
            old(self).wf(),
        ensures
            final(self).wf(),
            final(self).editor_spec() == old(self).editor_spec(),
            final(self).screen() == old(self).screen().print_at_spec(
                old(self).screen().cursor_x,
                old(self).screen().cursor_y,
                seq![0x20u8],
            ).0,
            ops@ == old(self).screen().print_at_spec(
                old(self).screen().cursor_x,
                old(self).screen().cursor_y,
                seq![0x20u8],
            ).1,
    {
        let s: [u8; 1] = [0x20];
        assert(s@ == seq![0x20u8]);
        self.print_at(self.cursor_x, self.cursor_y, &s)
    }

    /// Erase the character before the cursor, if the command line is not empty.
    fn erase_char_on_screen(&mut self) -> (ops: Vec<DrawOp>)
        requires
            old(self).wf(),
        ensures
            final(self).wf(),
            final(self).editor_spec() == old(self).editor_spec(),
            old(self).editor_spec().buffer_spec().len() == 0 ==> final(self).screen() == old(
                self,
            ).screen() && ops@ == Seq::<DrawOp>::empty(),
            old(self).editor_spec().buffer_spec().len() > 0 ==> final(self).screen() == old(
                self,
            ).screen().erase_char_spec().0 && ops@ == old(self).screen().erase_char_spec().1,
    {
        if self.editor.buffer().len() == 0 || (self.cursor_y == self.command_start_line
            && self.cursor_x <= PROMPT_LEN) {
            return Vec::new();
        }
        let ops = self.erase_cursor();
        if self.cursor_x == 0 && self.cursor_y > self.command_start_line {
            self.cursor_y = self.cursor_y - 1;
            self.cursor_x = self.width;
        }
        if self.cursor_x > 0 {
            self.cursor_x = self.cursor_x - 1;
        }
        ops
    }

    /// Clear the screen; the cursor goes to the start of the second line.
    pub fn clear_screen(&mut self) -> (op: DrawOp)
        requires
            old(self).wf(),
        ensures
            final(self).wf(),
            final(self).editor_spec() == old(self).editor_spec(),
            final(self).screen() == (ScreenView {
                cursor_x: 0,
                cursor_y: 1,
                command_start_line: 1,
                ..old(self).screen()
            }),
            op == (DrawOp::FillRect {
                x: 0,
                y: 0,
                w: old(self).screen().screen_width_px,
                h: old(self).screen().screen_height_px,
                color: BLACK,
            }),
    {
        self.cursor_x = 0;
        self.cursor_y = 1;
        self.command_start_line = 1;
        DrawOp::FillRect {
            x: 0,
            y: 0,
            w: self.screen_width_px,
            h: self.screen_height_px,
            color: BLACK,
        }
    }

    /// Show the prompt; the command starts on the line where it ends.
    pub fn print_prompt(&mut self) -> (ops: Vec<DrawOp>)
        requires
            old(self).wf(),
        ensures
            final(self).wf(),
            final(self).editor_spec() == old(self).editor_spec(),
            ({
                let (t, o) = (ScreenView { color: PROMPT_COLOR, ..old(self).screen() }).write_spec(
                    seq![0x3eu8, 0x20u8],
                );
                &&& final(self).screen() == (ScreenView {
                    color: old(self).screen().color,
                    command_start_line: t.cursor_y,
                    ..t
                })
                &&& ops@ == o
            }),
    {
        let s: [u8; 2] = [0x3e, 0x20];
        assert(s@ == seq![0x3eu8, 0x20u8]);
        let ops = self.print_colored(PROMPT_COLOR, &s);
        self.command_start_line = self.cursor_y;
        ops
    }

    /// Handle the character of a key: Enter ends the line and gives the command to
    /// run (the prompt follows with `print_prompt` once it ran), Backspace erases
    /// the last character, a printable character is added and shown.
    pub fn type_char(&mut self, asc: u8) -> (r: (EditOutcome, Vec<DrawOp>))
        requires
            old(self).wf(),
            old(self).editor_spec().history_spec().len() + 1 < i32::MAX,
        ensures
            final(self).wf(),
            ascii_effect(old(self).editor_spec(), asc, final(self).editor_spec(), r.0),
            asc == KEY_ENTER ==> final(self).screen() == old(self).screen().write_spec(seq![0x0au8]).0
                && r.1@ == old(self).screen().write_spec(seq![0x0au8]).1,
            asc == KEY_BACKSPACE ==> {
                &&& old(self).editor_spec().buffer_spec().len() > 0 ==> final(self).screen() == old(
                    self,
                ).screen().erase_char_spec().0 && r.1@ == old(self).screen().erase_char_spec().1
                &&& old(self).editor_spec().buffer_spec().len() == 0 ==> final(self).screen() == old(
                    self,
                ).screen() && r.1@ == Seq::<DrawOp>::empty()
            },
            asc != KEY_ENTER && asc != KEY_BACKSPACE && is_printable(asc) ==> final(self).screen()
                == old(self).screen().write_spec(seq![asc]).0 && r.1@ == old(self).screen().write_spec(
                seq![asc],
            ).1,
            asc != KEY_ENTER && asc != KEY_BACKSPACE && !is_printable(asc) ==> final(self).screen()
                == old(self).screen() && r.1@ == Seq::<DrawOp>::empty(),
    {
        if asc == KEY_ENTER {
            let s: [u8; 1] = [0x0a];
            assert(s@ == seq![0x0au8]);
            let ops = self.write_str(&s);
            let outcome = self.editor.handle_ascii(asc);
            (outcome, ops)
        } else if asc == KEY_BACKSPACE {
            let ops = self.erase_char_on_screen();
            let outcome = self.editor.handle_ascii(asc);
            (outcome, ops)
        } else if 32 <= asc && asc <= 126 {
            let outcome = self.editor.handle_ascii(asc);
            let s: [u8; 1] = [asc];
            assert(s@ == seq![asc]);
            let ops = self.write_str(&s);
            (outcome, ops)
        } else {
            let outcome = self.editor.handle_ascii(asc);
            (outcome, Vec::new())
        }
    }

    /// Move through the history (up to older entries): the command line on the
    /// screen is erased character by character and the entry reached is shown.
    pub fn navigate_history(&mut self, up: bool) -> (ops: Vec<DrawOp>)
        requires
            old(self).wf(),
        ensures
            final(self).wf(),
            final(self).editor_spec().history_spec() == old(self).editor_spec().history_spec(),
            old(self).editor_spec().history_spec().len() == 0 ==> *final(self) == *old(self)
                && ops@ == Seq::<DrawOp>::empty(),
            old(self).editor_spec().history_spec().len() > 0 ==> {
                let (t, erase_ops) = old(self).screen().erase_n_spec(
                    old(self).editor_spec().buffer_spec().len(),
                );
                let i = history_index_after(
                    old(self).editor_spec().index_spec(),
                    old(self).editor_spec().history_spec().len() as int,
                    up,
                );
                let loaded = if i == -1 {
                    Seq::<u8>::empty()
                } else {
                    old(self).editor_spec().history_spec()[i]
                };
                &&& final(self).editor_spec().buffer_spec() == loaded
                &&& final(self).editor_spec().index_spec() == i
                &&& final(self).screen() == t.write_spec(loaded).0
                &&& ops@ == erase_ops + t.write_spec(loaded).1
            },
    {
        if self.editor.history().len() == 0 {
            return Vec::new();
        }
        let n = self.editor.buffer().len();
        let mut ops: Vec<DrawOp> = Vec::new();
        let ghost start = self.screen();
        let mut k: usize = 0;
        while k < n
            invariant
                k <= n,
                n == old(self).editor_spec().buffer_spec().len(),
                self.wf(),
                self.editor_spec() == old(self).editor_spec(),
                start == old(self).screen(),
                (self.screen(), ops@) == start.erase_n_spec(k as nat),
            decreases n - k,
        {
            let more = self.erase_char_on_screen();
            let ghost before = ops@;
            ops.append(&mut more.clone());
            k = k + 1;
        }
        let ghost t = self.screen();
        let ghost erase_ops = ops@;
        let outcome = self.editor.navigate_history(up);
        match outcome {
            Some(o) => match o.load {
                Some(cmd) => {
                    let more = self.write_str(cmd.as_slice());
                    ops.append(&mut more.clone());
                },
                None => {
                    proof {
                        assert(t.write_spec(Seq::<u8>::empty()).0 == t);
                        assert(ops@ == erase_ops + t.write_spec(Seq::<u8>::empty()).1);
                    }
                },
            },
            None => {},
        }
        ops
    }
}

/// The command word that starts kernel program `p`.
pub open spec fn command_word(p: KernelProgram) -> Seq<u8> {
    match p {
        KernelProgram::Echo => bytes_of("echo"),
        KernelProgram::Time => bytes_of("time"),
        KernelProgram::Ps => bytes_of("ps"),
        KernelProgram::Kill => bytes_of("kill"),
        KernelProgram::Numbers => bytes_of("numbers"),
        KernelProgram::Graphic => bytes_of("graphic"),
        KernelProgram::Threads => bytes_of("threads"),
        KernelProgram::Sound => bytes_of("sound"),
        KernelProgram::Mouse => bytes_of("mouse"),
        KernelProgram::Heap => bytes_of("heap"),
        KernelProgram::PciList => bytes_of("pci_list"),
        KernelProgram::Network => bytes_of("network"),
        KernelProgram::Spinner => bytes_of("spinner"),
    }
}

/// The bytes of the command words of the kernel shell.
proof fn lemma_command_word_bytes()
    ensures
        bytes_of("echo").len() == 4,
        bytes_of("echo")[0] == 101,
        bytes_of("echo")[1] == 99,
        bytes_of("echo")[2] == 104,
        bytes_of("echo")[3] == 111,
        bytes_of("time").len() == 4,
        bytes_of("time")[0] == 116,
        bytes_of("time")[1] == 105,
        bytes_of("time")[2] == 109,
        bytes_of("time")[3] == 101,
        bytes_of("ps").len() == 2,
        bytes_of("ps")[0] == 112,
        bytes_of("ps")[1] == 115,
        bytes_of("kill").len() == 4,
        bytes_of("kill")[0] == 107,
        bytes_of("kill")[1] == 105,
        bytes_of("kill")[2] == 108,
        bytes_of("kill")[3] == 108,
        bytes_of("numbers").len() == 7,
        bytes_of("numbers")[0] == 110,
        bytes_of("numbers")[1] == 117,
        bytes_of("numbers")[2] == 109,
        bytes_of("numbers")[3] == 98,
        bytes_of("numbers")[4] == 101,
        bytes_of("numbers")[5] == 114,
        bytes_of("numbers")[6] == 115,
        bytes_of("graphic").len() == 7,
        bytes_of("graphic")[0] == 103,
        bytes_of("graphic")[1] == 114,
        bytes_of("graphic")[2] == 97,
        bytes_of("graphic")[3] == 112,
        bytes_of("graphic")[4] == 104,
        bytes_of("graphic")[5] == 105,
        bytes_of("graphic")[6] == 99,
        bytes_of("threads").len() == 7,
        bytes_of("threads")[0] == 116,
        bytes_of("threads")[1] == 104,
        bytes_of("threads")[2] == 114,
        bytes_of("threads")[3] == 101,
        bytes_of("threads")[4] == 97,
        bytes_of("threads")[5] == 100,
        bytes_of("threads")[6] == 115,
        bytes_of("sound").len() == 5,
        bytes_of("sound")[0] == 115,
        bytes_of("sound")[1] == 111,
        bytes_of("sound")[2] == 117,
        bytes_of("sound")[3] == 110,
        bytes_of("sound")[4] == 100,
        bytes_of("mouse").len() == 5,
        bytes_of("mouse")[0] == 109,
        bytes_of("mouse")[1] == 111,
        bytes_of("mouse")[2] == 117,
        bytes_of("mouse")[3] == 115,
        bytes_of("mouse")[4] == 101,
        bytes_of("heap").len() == 4,
        bytes_of("heap")[0] == 104,
        bytes_of("heap")[1] == 101,
        bytes_of("heap")[2] == 97,
        bytes_of("heap")[3] == 112,
        bytes_of("pci_list").len() == 8,
        bytes_of("pci_list")[0] == 112,
        bytes_of("pci_list")[1] == 99,
        bytes_of("pci_list")[2] == 105,
        bytes_of("pci_list")[3] == 95,
        bytes_of("pci_list")[4] == 108,
        bytes_of("pci_list")[5] == 105,
        bytes_of("pci_list")[6] == 115,
        bytes_of("pci_list")[7] == 116,
        bytes_of("network").len() == 7,
        bytes_of("network")[0] == 110,
        bytes_of("network")[1] == 101,
        bytes_of("network")[2] == 116,
        bytes_of("network")[3] == 119,
        bytes_of("network")[4] == 111,
        bytes_of("network")[5] == 114,
        bytes_of("network")[6] == 107,
        bytes_of("spinner").len() == 7,
        bytes_of("spinner")[0] == 115,
        bytes_of("spinner")[1] == 112,
        bytes_of("spinner")[2] == 105,
        bytes_of("spinner")[3] == 110,
        bytes_of("spinner")[4] == 110,
        bytes_of("spinner")[5] == 101,
        bytes_of("spinner")[6] == 114,
        bytes_of("help").len() == 4,
        bytes_of("help")[0] == 104,
        bytes_of("help")[1] == 101,
        bytes_of("help")[2] == 108,
        bytes_of("help")[3] == 112,
        bytes_of("clear").len() == 5,
        bytes_of("clear")[0] == 99,
        bytes_of("clear")[1] == 108,
        bytes_of("clear")[2] == 101,
        bytes_of("clear")[3] == 97,
        bytes_of("clear")[4] == 114,
        bytes_of("banner").len() == 6,
        bytes_of("banner")[0] == 98,
        bytes_of("banner")[1] == 97,
        bytes_of("banner")[2] == 110,
        bytes_of("banner")[3] == 110,
        bytes_of("banner")[4] == 101,
        bytes_of("banner")[5] == 114,
        bytes_of("history").len() == 7,
        bytes_of("history")[0] == 104,
        bytes_of("history")[1] == 105,
        bytes_of("history")[2] == 115,
        bytes_of("history")[3] == 116,
        bytes_of("history")[4] == 111,
        bytes_of("history")[5] == 114,
        bytes_of("history")[6] == 121,
        bytes_of("reboot").len() == 6,
        bytes_of("reboot")[0] == 114,
        bytes_of("reboot")[1] == 101,
        bytes_of("reboot")[2] == 98,
        bytes_of("reboot")[3] == 111,
        bytes_of("reboot")[4] == 111,
        bytes_of("reboot")[5] == 116,
        bytes_of("panic").len() == 5,
        bytes_of("panic")[0] == 112,
        bytes_of("panic")[1] == 97,
        bytes_of("panic")[2] == 110,
        bytes_of("panic")[3] == 105,
        bytes_of("panic")[4] == 99,
{
    broadcast use vstd::string::is_ascii_spec_bytes;

    reveal_strlit("echo");
    assert(vstd::string::is_ascii("echo"));
    reveal_strlit("time");
    assert(vstd::string::is_ascii("time"));
    reveal_strlit("ps");
    assert(vstd::string::is_ascii("ps"));
    reveal_strlit("kill");
    assert(vstd::string::is_ascii("kill"));
    reveal_strlit("numbers");
    assert(vstd::string::is_ascii("numbers"));
    reveal_strlit("graphic");
    assert(vstd::string::is_ascii("graphic"));
    reveal_strlit("threads");
    assert(vstd::string::is_ascii("threads"));
    reveal_strlit("sound");
    assert(vstd::string::is_ascii("sound"));
    reveal_strlit("mouse");
    assert(vstd::string::is_ascii("mouse"));
    reveal_strlit("heap");
    assert(vstd::string::is_ascii("heap"));
    reveal_strlit("pci_list");
    assert(vstd::string::is_ascii("pci_list"));
    reveal_strlit("network");
    assert(vstd::string::is_ascii("network"));
    reveal_strlit("spinner");
    assert(vstd::string::is_ascii("spinner"));
    reveal_strlit("help");
    assert(vstd::string::is_ascii("help"));
    reveal_strlit("clear");
    assert(vstd::string::is_ascii("clear"));
    reveal_strlit("banner");
    assert(vstd::string::is_ascii("banner"));
    reveal_strlit("history");
    assert(vstd::string::is_ascii("history"));
    reveal_strlit("reboot");
    assert(vstd::string::is_ascii("reboot"));
    reveal_strlit("panic");
    assert(vstd::string::is_ascii("panic"));
}

/// Each kernel program is started by its own command word and by no other
/// word: `kill` starts the kill program, `ps` the process list, and so on, and
/// no two words start the same program.
pub proof fn law_program_words(p: KernelProgram, name: Seq<u8>)
    ensures
        program_named(name) == Some(p) <==> name == command_word(p),
{
    lemma_command_word_bytes();
}

/// A command line whose first word is the command word of a program starts
/// that program, with the other words as its arguments.
pub proof fn law_command_starts_its_program(c: KernelCommand, ws: Seq<Seq<u8>>, p: KernelProgram)
    requires
        kernel_command_matches(c, ws),
        ws.len() > 0,
        ws[0] == command_word(p),
    ensures
        c matches KernelCommand::Start { program, args } && program == p && views(args@) == ws.drop_first(),
{
    lemma_command_word_bytes();
    law_program_words(p, ws[0]);
}

/// What each word of the kernel shell asks for: `help`, `clear`, `banner`,
/// `history`, `reboot` and `panic` their own commands, a program's command word
/// its program, nothing an empty line, and any other word is unknown.
pub proof fn law_kernel_command_words(c: KernelCommand, ws: Seq<Seq<u8>>)
    requires
        kernel_command_matches(c, ws),
    ensures
        ({
            let name = if ws.len() > 0 {
                ws[0]
            } else {
                Seq::<u8>::empty()
            };
            &&& c is Help <==> name == bytes_of("help")
            &&& c is Clear <==> name == bytes_of("clear")
            &&& c is Banner <==> name == bytes_of("banner")
            &&& c is History <==> name == bytes_of("history")
            &&& c is Reboot <==> name == bytes_of("reboot")
            &&& c is Panic <==> name == bytes_of("panic")
            &&& c is Start <==> exists|p: KernelProgram| name == command_word(p)
            &&& c is Empty <==> name.len() == 0
            &&& c matches KernelCommand::Unknown(n) ==> n@ == name
        }),
{
    lemma_command_word_bytes();
    let name = if ws.len() > 0 {
        ws[0]
    } else {
        Seq::<u8>::empty()
    };
    if program_named(name) is Some {
        law_program_words(program_named(name).unwrap(), name);
    }
    if exists|p: KernelProgram| name == command_word(p) {
        let p = choose|p: KernelProgram| name == command_word(p);
        law_program_words(p, name);
    }
}

} // verus!
