use vstd::prelude::*;
use crate::library::text::{bytes_of, copy_range, decimal, lex_sorted, push_bytes, push_decimal, push_str, sort_bytes, trim, trim_bytes, views};

verus! {

/// Largest screen dimension the launcher handles.
pub const MAX_DIM: u32 = 0x1000_0000;

/// Margin around the panels.
pub const MARGIN: u32 = 12;

/// Height of the header panel.
pub const HEADER_H: u32 = 28;

/// Height of the footer panel.
pub const FOOTER_H: u32 = 28;

/// Height of an app button.
pub const BUTTON_H: u32 = 28;

/// Horizontal gap between app buttons.
pub const BUTTON_GAP_X: u32 = 8;

/// Vertical gap between app buttons.
pub const BUTTON_GAP_Y: u32 = 8;

/// Size of the mouse cursor square.
pub const CURSOR_SIZE: u32 = 8;

/// Longest argument string.
pub const MAX_ARG_CHARS: usize = 128;

/// A rectangle on the screen.
#[derive(Clone, Copy, PartialEq, Eq, Structural, Debug)]
pub struct Rect {
    pub x: u32,
    pub y: u32,
    pub w: u32,
    pub h: u32,
}

/// `a - b`, or 0 where `b` is larger.
pub open spec fn sat_sub(a: int, b: int) -> int {
    if a >= b {
        a - b
    } else {
        0
    }
}

impl Rect {
    /// The point (`px`, `py`) lies in the rectangle, compared as the launcher does:
    /// with the corners taken as signed 32-bit numbers.
    pub open spec fn contains_spec(self, px: i32, py: i32) -> bool {
        &&& px >= self.x as i32
        &&& py >= self.y as i32
        &&& px < (self.x + self.w) as i32
        &&& py < (self.y + self.h) as i32
    }

    /// The rectangle's far corner fits in 32 bits.
    pub open spec fn fits(self) -> bool {
        self.x + self.w <= u32::MAX && self.y + self.h <= u32::MAX
    }

    /// The point (`px`, `py`) lies in the rectangle.
    pub fn contains(&self, px: i32, py: i32) -> (r: bool)
        requires
            self.fits(),
        ensures
            r == self.contains_spec(px, py),
    {
        px >= self.x as i32 && py >= self.y as i32 && px < (self.x + self.w) as i32 && py < (self.y
            + self.h) as i32
    }
}

/// The parts of the launcher's screen area.
#[derive(Clone, Copy, PartialEq, Eq, Structural, Debug)]
pub struct Layout {
    pub header: Rect,
    pub body: Rect,
    pub footer: Rect,
    pub args_field: Rect,
    pub toggle: Rect,
    pub exit: Rect,
    pub prev: Rect,
    pub page_label: Rect,
    pub next: Rect,
    pub columns: u32,
    pub rows: u32,
}

/// The screen may hold the launcher with its mouse: dimensions below `MAX_DIM`,
/// so that the mouse's signed coordinates cover the screen, the launcher's area
/// starting above the bottom, and room for the page buttons.
pub open spec fn screen_ok(width: u32, height: u32, split_y: u32) -> bool {
    &&& width <= MAX_DIM
    &&& height <= MAX_DIM
    &&& split_y < height
    &&& width >= 128
}

/// The layout for a screen of `width` by `height` pixels whose part from row
/// `split_y` down belongs to the launcher.
pub open spec fn layout_spec(width: u32, height: u32, split_y: u32) -> Layout {
    let inner_w = sat_sub(width as int, MARGIN * 2) as u32;
    let header = Rect { x: MARGIN, y: (split_y + 10) as u32, w: inner_w, h: HEADER_H };
    let footer = Rect { x: MARGIN, y: sat_sub(height as int, FOOTER_H + 10) as u32, w: inner_w, h: FOOTER_H };
    let body = Rect {
        x: MARGIN,
        y: (header.y + header.h + 8) as u32,
        w: inner_w,
        h: sat_sub(footer.y as int, header.y + header.h + 16) as u32,
    };
    let exit = Rect { x: (header.x + sat_sub(header.w as int, 58)) as u32, y: (header.y + 4) as u32, w: 44, h: 20 };
    let toggle = Rect {
        x: (header.x + sat_sub(header.w as int, 192)) as u32,
        y: (header.y + 2) as u32,
        w: 124,
        h: 24,
    };
    let args_field = Rect {
        x: (header.x + 10) as u32,
        y: (header.y + 2) as u32,
        w: sat_sub(toggle.x as int, header.x + 20) as u32,
        h: 24,
    };
    let nav_group_x = (footer.x + footer.w / 2 - 64) as u32;
    let prev = Rect { x: nav_group_x, y: (footer.y + 4) as u32, w: 26, h: sat_sub(footer.h as int, 8) as u32 };
    let page_label = Rect {
        x: (nav_group_x + prev.w + 8) as u32,
        y: (footer.y + 4) as u32,
        w: 60,
        h: sat_sub(footer.h as int, 8) as u32,
    };
    let next = Rect {
        x: (page_label.x + page_label.w + 8) as u32,
        y: (footer.y + 4) as u32,
        w: 26,
        h: sat_sub(footer.h as int, 8) as u32,
    };
    let columns: u32 = if body.w >= 680 {
        4
    } else if body.w >= 520 {
        3
    } else if body.w >= 360 {
        2
    } else {
        1
    };
    let available_h = sat_sub(body.h as int, 20);
    let r = (available_h + BUTTON_GAP_Y) / ((BUTTON_H + BUTTON_GAP_Y) as int);
    let rows: u32 = if r < 1 { 1 } else { r as u32 };
    Layout { header, body, footer, args_field, toggle, exit, prev, page_label, next, columns, rows }
}

/// The launcher's buttons can be placed: the screen is wide enough for the
/// page buttons, and the launcher's part starts far enough above the end of
/// the 32-bit range for its header and a row of app buttons.
pub open spec fn layout_ok(width: u32, split_y: u32) -> bool {
    &&& width >= 128
    &&& split_y + 100 <= u32::MAX
}

/// Every rectangle of a layout fits in 32 bits, there are one to four columns
/// and at least one row, and the rows of buttons end within 32 bits.
pub open spec fn layout_sound(l: Layout) -> bool {
    &&& l.header.fits() && l.body.fits() && l.footer.fits()
    &&& l.args_field.fits() && l.toggle.fits() && l.exit.fits()
    &&& l.prev.fits() && l.page_label.fits() && l.next.fits()
    &&& 1 <= l.columns <= 4
    &&& 1 <= l.rows <= 0x0800_0000
    &&& l.body.y + 10 + l.rows * 36 <= u32::MAX
    &&& l.body.x + l.body.w <= u32::MAX
    &&& l.body.x == MARGIN
    &&& l.body.w >= 104
}

/// Width of the app buttons of layout `l`.
pub open spec fn button_width(l: Layout) -> int {
    sat_sub(sat_sub(l.body.w as int, 20), BUTTON_GAP_X * (l.columns - 1)) / (l.columns as int)
}

/// The buttons of a column end within the body.
proof fn lemma_button_x(l: Layout, col: int)
    requires
        layout_sound(l),
        0 <= col < l.columns,
    ensures
        0 <= button_width(l),
        l.body.x + 10 + col * (button_width(l) + BUTTON_GAP_X) + button_width(l) <= l.body.x + l.body.w,
{
    let c = l.columns as int;
    let gw = l.body.w - 20;
    let bw = button_width(l);
    assert(sat_sub(l.body.w as int, 20) == gw);
    assert(gw - 8 * (c - 1) >= 0);
    assert(bw == (gw - 8 * (c - 1)) / c);
    assert(0 <= bw && bw * c <= gw - 8 * (c - 1)) by (nonlinear_arith)
        requires
            bw == (gw - 8 * (c - 1)) / c,
            c >= 1,
            gw - 8 * (c - 1) >= 0,
    ;
    assert(col * (bw + 8) + bw <= c * bw + 8 * (c - 1)) by (nonlinear_arith)
        requires
            0 <= col < c,
            bw >= 0,
    ;
}

fn sat_sub_u32(a: u32, b: u32) -> (r: u32)
    ensures
        r == sat_sub(a as int, b as int),
{
    if a >= b {
        a - b
    } else {
        0
    }
}

/// The layout for a screen of `width` by `height` pixels whose part from row
/// `split_y` down belongs to the launcher.
pub fn layout(width: u32, height: u32, split_y: u32) -> (r: Layout)
    requires
        width >= 128,
        split_y + 54 <= u32::MAX,
    ensures
        r == layout_spec(width, height, split_y),
        layout_ok(width, split_y) ==> layout_sound(r),
        r.body.x + r.body.w <= width,
        r.body.y + 10 + r.rows * 36 <= if height > split_y + 100 { height as int } else { split_y + 100 },
{
    let inner_w = sat_sub_u32(width, MARGIN * 2);
    let header = Rect { x: MARGIN, y: split_y + 10, w: inner_w, h: HEADER_H };
    let footer = Rect { x: MARGIN, y: sat_sub_u32(height, FOOTER_H + 10), w: inner_w, h: FOOTER_H };
    let body = Rect {
        x: MARGIN,
        y: header.y + header.h + 8,
        w: inner_w,
        h: sat_sub_u32(footer.y, header.y + header.h + 16),
    };
    let exit = Rect { x: header.x + sat_sub_u32(header.w, 58), y: header.y + 4, w: 44, h: 20 };
    let toggle = Rect { x: header.x + sat_sub_u32(header.w, 192), y: header.y + 2, w: 124, h: 24 };
    let args_field = Rect {
        x: header.x + 10,
        y: header.y + 2,
        w: sat_sub_u32(toggle.x, header.x + 20),
        h: 24,
    };
    let nav_group_w: u32 = 128;
    let nav_group_x = footer.x + footer.w / 2 - nav_group_w / 2;
    let prev = Rect { x: nav_group_x, y: footer.y + 4, w: 26, h: sat_sub_u32(footer.h, 8) };
    let page_label = Rect { x: nav_group_x + prev.w + 8, y: footer.y + 4, w: 60, h: sat_sub_u32(footer.h, 8) };
    let next = Rect { x: page_label.x + page_label.w + 8, y: footer.y + 4, w: 26, h: sat_sub_u32(footer.h, 8) };
    let columns: u32 = if body.w >= 680 {
        4
    } else if body.w >= 520 {
        3
    } else if body.w >= 360 {
        2
    } else {
        1
    };
    let available_h = sat_sub_u32(body.h, 20);
    let r = (available_h + BUTTON_GAP_Y) / (BUTTON_H + BUTTON_GAP_Y);
    let rows: u32 = if r < 1 {
        1
    } else {
        r
    };
    proof {
        assert(r * 36 <= available_h + 8) by (nonlinear_arith)
            requires
                r == (available_h + 8) / 36,
        ;
        assert(r <= 0x0800_0000) by (nonlinear_arith)
            requires
                r == (available_h + 8) / 36,
                available_h <= u32::MAX,
        ;
    }
    Layout { header, body, footer, args_field, toggle, exit, prev, page_label, next, columns, rows }
}

/// Buttons on one page.
pub open spec fn per_page_spec(l: Layout) -> int {
    l.columns * l.rows
}

/// Pages needed for `n_apps` apps at `per_page` buttons per page (at least one).
pub open spec fn page_count_spec(n_apps: int, per_page: int) -> int {
    let n = if n_apps < 1 { 1 } else { n_apps };
    let p = if per_page < 1 { 1 } else { per_page };
    (n + p - 1) / p
}

/// The button of slot `slot` on a page of layout `l`.
pub open spec fn button_rect(l: Layout, slot: int) -> Rect {
    let grid_x = l.body.x + 10;
    let grid_y = l.body.y + 10;
    let grid_w = sat_sub(l.body.w as int, 20);
    let button_w = sat_sub(grid_w, BUTTON_GAP_X * (l.columns - 1)) / (l.columns as int);
    let col = slot % (l.columns as int);
    let row = slot / (l.columns as int);
    Rect {
        x: (grid_x + col * (button_w + BUTTON_GAP_X)) as u32,
        y: (grid_y + row * (BUTTON_H + BUTTON_GAP_Y)) as u32,
        w: button_w as u32,
        h: BUTTON_H,
    }
}

/// A color from its red, green and blue parts.
pub open spec fn color(r: u32, g: u32, b: u32) -> u32 {
    (r << 16u32) | (g << 8u32) | b
}

/// Color of hints and quiet messages.
pub const MUTED: u32 = 0x008d_9ba9;

/// Color of success messages (green).
pub const SUCCESS: u32 = 0x0097_bf0d;

/// Color of error messages (red).
pub const ERROR: u32 = 0x00aa_0000;

/// The state of the app launcher: the apps it offers, the argument line, the
/// launch mode, the status line, the page of app buttons and the mouse.
pub struct Gui {
    apps: Vec<Vec<u8>>,
    args: Vec<u8>,
    detached: bool,
    text_focus: bool,
    status: Vec<u8>,
    status_color: u32,
    page: usize,
    mouse_x: i32,
    mouse_y: i32,
    mouse_down: bool,
    quit: bool,
}

/// The launcher's state, as seen by contracts.
pub struct GuiView {
    pub apps: Seq<Seq<u8>>,
    pub args: Seq<u8>,
    pub detached: bool,
    pub text_focus: bool,
    pub status: Seq<u8>,
    pub status_color: u32,
    pub page: nat,
    pub mouse_x: i32,
    pub mouse_y: i32,
    pub mouse_down: bool,
    pub quit: bool,
}

impl View for Gui {
    type V = GuiView;

    closed spec fn view(&self) -> GuiView {
        GuiView {
            apps: views(self.apps@),
            args: self.args@,
            detached: self.detached,
            text_focus: self.text_focus,
            status: self.status@,
            status_color: self.status_color,
            page: self.page as nat,
            mouse_x: self.mouse_x,
            mouse_y: self.mouse_y,
            mouse_down: self.mouse_down,
            quit: self.quit,
        }
    }
}

/// The status line after moving to page `page` (from 0) of `count`.
pub open spec fn page_status(page: nat, count: int) -> Seq<u8> {
    bytes_of("page ") + decimal(page + 1) + bytes_of("/") + decimal(
        (if count < 1 { 1 } else { count }) as nat,
    )
}

/// The status line after switching the launch mode to `detached`.
pub open spec fn detach_status(detached: bool) -> Seq<u8> {
    if detached {
        bytes_of("detached mode enabled")
    } else {
        bytes_of("foreground mode enabled")
    }
}

impl GuiView {
    /// Few enough apps to count pages in 64 bits, a short argument line, and a
    /// page that exists for some layout.
    pub open spec fn wf(self) -> bool {
        &&& self.apps.len() < 0x1_0000_0000
        &&& self.args.len() <= MAX_ARG_CHARS
        &&& self.page <= self.apps.len()
        &&& -(MAX_DIM as int) <= self.mouse_x <= MAX_DIM
        &&& -(MAX_DIM as int) <= self.mouse_y <= MAX_DIM
    }

    /// Pages of app buttons for the layout `l`.
    pub open spec fn page_count(self, l: Layout) -> int {
        page_count_spec(self.apps.len() as int, per_page_spec(l))
    }

    /// The apps shown on the current page for layout `l`: their indices and buttons.
    pub open spec fn visible(self, l: Layout) -> Seq<(usize, Rect)> {
        let per_page = per_page_spec(l);
        let start = self.page * per_page;
        let end = if start + per_page < self.apps.len() { start + per_page } else { self.apps.len() as int };
        Seq::new(
            sat_sub(end, start) as nat,
            |k: int| ((start + k) as usize, button_rect(l, k)),
        )
    }
}

fn sat_sub_u64(a: u64, b: u64) -> (r: u64)
    ensures
        r == sat_sub(a as int, b as int),
{
    if a >= b {
        a - b
    } else {
        0
    }
}

impl Gui {
    /// Buttons on one page for the screen.
    pub fn buttons_per_page(&self, width: u32, height: u32, split_y: u32) -> (r: usize)
        requires
            layout_ok(width, split_y),
        ensures
            r == per_page_spec(layout_spec(width, height, split_y)),
            1 <= r <= 0x2000_0000,
    {
        let l = layout(width, height, split_y);
        assert(1 <= l.columns * l.rows <= 0x2000_0000) by (nonlinear_arith)
            requires
                1 <= l.columns <= 4,
                1 <= l.rows <= 0x0800_0000,
        ;
        (l.columns as u64 * l.rows as u64) as usize
    }

    /// Pages of app buttons for the screen.
    pub fn page_count(&self, width: u32, height: u32, split_y: u32) -> (r: usize)
        requires
            layout_ok(width, split_y),
            self@.wf(),
        ensures
            r == self@.page_count(layout_spec(width, height, split_y)),
            1 <= r <= if self@.apps.len() < 1 { 1 } else { self@.apps.len() as int },
    {
        let per_page = self.buttons_per_page(width, height, split_y);
        let per_page = if per_page < 1 {
            1
        } else {
            per_page
        };
        assert(self.apps@.len() == self@.apps.len());
        let n = if self.apps.len() < 1 {
            1
        } else {
            self.apps.len()
        };
        let q = (n as u64 + per_page as u64 - 1) / per_page as u64;
        assert(1 <= q <= n) by (nonlinear_arith)
            requires
                q == (n + per_page - 1) / (per_page as int),
                per_page >= 1,
                n >= 1,
        ;
        q as usize
    }

    /// The app buttons on the current page: each with the index of its app.
    pub fn visible_button_rects(&self, width: u32, height: u32, split_y: u32) -> (r: Vec<(usize, Rect)>)
        requires
            layout_ok(width, split_y),
            self@.wf(),
        ensures
            r@ == self@.visible(layout_spec(width, height, split_y)),
    {
        let l = layout(width, height, split_y);
        let per_page = self.buttons_per_page(width, height, split_y) as u64;
        let n = self.apps.len() as u64;
        assert(self.apps@.len() == self@.apps.len());
        assert(self.page as u64 * per_page <= 0x1_0000_0000 * 0x2000_0000) by (nonlinear_arith)
            requires
                self.page <= 0x1_0000_0000,
                per_page <= 0x2000_0000,
        ;
        let page_start = self.page as u64 * per_page;
        let page_end = if page_start + per_page < n {
            page_start + per_page
        } else {
            n
        };
        let grid_x = l.body.x + 10;
        let grid_y = l.body.y + 10;
        let grid_w = sat_sub_u32(l.body.w, 20);
        let button_w = sat_sub_u32(grid_w, BUTTON_GAP_X * (l.columns - 1)) / l.columns;
        let count = sat_sub_u64(page_end, page_start);
        let mut rects: Vec<(usize, Rect)> = Vec::new();
        let mut slot: u64 = 0;
        while slot < count
            invariant
                slot <= count,
                count == sat_sub(page_end as int, page_start as int),
                page_end <= n,
                n == self@.apps.len(),
                l == layout_spec(width, height, split_y),
                layout_sound(l),
                per_page == per_page_spec(l),
                page_start == self@.page * per_page,
                page_end == (if page_start + per_page < n { page_start + per_page } else { n as int }),
                grid_x == l.body.x + 10,
                grid_y == l.body.y + 10,
                button_w == sat_sub(sat_sub(l.body.w as int, 20), BUTTON_GAP_X * (l.columns - 1)) / (
                l.columns as int),
                rects@ == self@.visible(l).subrange(0, slot as int),
            decreases count - slot,
        {
            let col = (slot % l.columns as u64) as u32;
            let row = slot / l.columns as u64;
            proof {
                assert(slot < per_page);
                assert(row * l.columns <= slot) by (nonlinear_arith)
                    requires
                        row == slot as int / (l.columns as int),
                        l.columns >= 1,
                ;
                assert(row < l.rows) by (nonlinear_arith)
                    requires
                        row * l.columns <= slot,
                        slot < l.columns * l.rows,
                        l.columns >= 1,
                ;
                lemma_button_x(l, col as int);
                assert(page_start + slot < page_end);
                assert(row * (BUTTON_H + BUTTON_GAP_Y) <= l.rows * 36 - 36) by (nonlinear_arith)
                    requires
                        row < l.rows,
                ;
            }
            let idx = (page_start + slot) as usize;
            let rect = Rect {
                x: grid_x + col * (button_w + BUTTON_GAP_X),
                y: (grid_y as u64 + row * (BUTTON_H + BUTTON_GAP_Y) as u64) as u32,
                w: button_w,
                h: BUTTON_H,
            };
            rects.push((idx, rect));
            slot = slot + 1;
            assert(rects@ == self@.visible(l).subrange(0, slot as int));
        }
        rects
    }
}

/// Index of the first of `vis` whose button holds the point (`mx`, `my`).
pub open spec fn first_hit(vis: Seq<(usize, Rect)>, mx: i32, my: i32) -> Option<int>
    decreases vis.len(),
{
    if vis.len() == 0 {
        None
    } else if vis[0].1.contains_spec(mx, my) {
        Some(0)
    } else {
        match first_hit(vis.drop_first(), mx, my) {
            Some(k) => Some(k + 1),
            None => None,
        }
    }
}

proof fn lemma_first_hit_range(vis: Seq<(usize, Rect)>, mx: i32, my: i32)
    ensures
        first_hit(vis, mx, my) matches Some(k) ==> 0 <= k < vis.len(),
    decreases vis.len(),
{
    if vis.len() > 0 {
        lemma_first_hit_range(vis.drop_first(), mx, my);
    }
}

/// `v` clamped to `lo..=hi`.
pub open spec fn clamp(v: int, lo: int, hi: int) -> int {
    if v < lo {
        lo
    } else if v > hi {
        hi
    } else {
        v
    }
}

impl GuiView {
    pub open spec fn with_status(self, status: Seq<u8>, color: u32) -> GuiView {
        GuiView { status, status_color: color, ..self }
    }

    /// A key with character `asc` and scan code `scan`, for layout `l`: the new
    /// state and whether the screen must be drawn again.
    pub open spec fn key_effect(self, asc: u8, scan: u8, l: Layout) -> (GuiView, bool) {
        let pc = self.page_count(l);
        if scan == 1 {
            (GuiView { quit: true, ..self.with_status(bytes_of("closing gui"), MUTED) }, true)
        } else if scan == 15 {
            let d = !self.detached;
            (GuiView { detached: d, ..self.with_status(detach_status(d), SUCCESS) }, true)
        } else if scan == 75 && self.page > 0 {
            let p = (self.page - 1) as nat;
            (GuiView { page: p, ..self.with_status(page_status(p, pc), SUCCESS) }, true)
        } else if scan == 77 && self.page < sat_sub(pc, 1) {
            let p = self.page + 1;
            (GuiView { page: p, ..self.with_status(page_status(p, pc), SUCCESS) }, true)
        } else if !self.text_focus {
            (self, false)
        } else if asc == 8 {
            if self.args.len() > 0 {
                (GuiView { args: self.args.drop_last(), ..self }, true)
            } else {
                (self, false)
            }
        } else if 32 <= asc <= 126 {
            if self.args.len() < MAX_ARG_CHARS {
                (GuiView { args: self.args.push(asc), ..self }, true)
            } else {
                (self.with_status(bytes_of("argument string is full"), ERROR), true)
            }
        } else {
            (self, false)
        }
    }

    /// A click at the mouse position, for layout `l`: the new state and the app to
    /// start, if an app button was hit.
    pub open spec fn click_effect(self, l: Layout) -> (GuiView, Option<usize>) {
        let mx = self.mouse_x;
        let my = self.mouse_y;
        let pc = self.page_count(l);
        if l.exit.contains_spec(mx, my) {
            (GuiView { quit: true, ..self.with_status(bytes_of("closing gui"), MUTED) }, None)
        } else if l.toggle.contains_spec(mx, my) {
            let d = !self.detached;
            (GuiView { detached: d, ..self.with_status(detach_status(d), SUCCESS) }, None)
        } else if l.args_field.contains_spec(mx, my) {
            (GuiView { text_focus: true, ..self }, None)
        } else if self.page > 0 && l.prev.contains_spec(mx, my) {
            let p = (self.page - 1) as nat;
            (GuiView { page: p, ..self.with_status(page_status(p, pc), SUCCESS) }, None)
        } else if self.page < sat_sub(pc, 1) && l.next.contains_spec(mx, my) {
            let p = self.page + 1;
            (GuiView { page: p, ..self.with_status(page_status(p, pc), SUCCESS) }, None)
        } else {
            let t = GuiView { text_focus: false, ..self };
            match first_hit(self.visible(l), mx, my) {
                Some(k) => (t, Some(self.visible(l)[k].0)),
                None => (t, None),
            }
        }
    }

    /// A mouse movement by (`dx`, `dy`) with buttons `buttons`, for a screen of
    /// `width` by `height` whose launcher part starts at `split_y`: the mouse stays
    /// in the launcher's part; pressing the left button clicks. Returns the new
    /// state, whether the screen must be drawn again, and the app to start.
    pub open spec fn mouse_effect(
        self,
        dx: i16,
        dy: i16,
        buttons: u8,
        width: u32,
        height: u32,
        split_y: u32,
    ) -> (GuiView, bool, Option<usize>) {
        let nx = clamp(self.mouse_x + dx, 0, sat_sub(width as int, 1)) as i32;
        let ny = clamp(self.mouse_y + dy, split_y as int, sat_sub(height as int, 1)) as i32;
        let down = buttons & 1 != 0;
        let moved = GuiView { mouse_x: nx, mouse_y: ny, mouse_down: down, ..self };
        let (t, launch) = if down && !self.mouse_down {
            moved.click_effect(layout_spec(width, height, split_y))
        } else {
            (moved, None)
        };
        let t2 = if launch is Some {
            GuiView { mouse_down: false, ..t }
        } else {
            t
        };
        (
            t2,
            self.mouse_x != t2.mouse_x || self.mouse_y != t2.mouse_y || self.mouse_down != t2.mouse_down,
            launch,
        )
    }
}

impl Gui {
    fn set_status(&mut self, status: Vec<u8>, color: u32)
        ensures
            final(self)@ == old(self)@.with_status(status@, color),
    {
        self.status = status;
        self.status_color = color;
    }

    fn set_text_status(&mut self, text: &str, color: u32)
        ensures
            final(self)@ == old(self)@.with_status(bytes_of(text), color),
    {
        let mut s: Vec<u8> = Vec::new();
        push_str(&mut s, text);
        assert(s@ == bytes_of(text));
        self.set_status(s, color);
    }

    fn set_detach_status(&mut self)
        ensures
            final(self)@ == old(self)@.with_status(detach_status(old(self)@.detached), SUCCESS),
    {
        if self.detached {
            self.set_text_status("detached mode enabled", SUCCESS);
        } else {
            self.set_text_status("foreground mode enabled", SUCCESS);
        }
    }

    fn set_page_status(&mut self, width: u32, height: u32, split_y: u32)
        requires
            layout_ok(width, split_y),
            old(self)@.wf(),
        ensures
            final(self)@ == old(self)@.with_status(
                page_status(old(self)@.page, old(self)@.page_count(layout_spec(width, height, split_y))),
                SUCCESS,
            ),
    {
        let count = self.page_count(width, height, split_y);
        let mut s: Vec<u8> = Vec::new();
        push_str(&mut s, "page ");
        push_decimal(&mut s, self.page as u64 + 1);
        push_str(&mut s, "/");
        let shown = if count < 1 {
            1
        } else {
            count
        };
        push_decimal(&mut s, shown as u64);
        assert(s@ == page_status(self@.page, count as int));
        self.set_status(s, SUCCESS);
    }

    /// Handle a key with character `asc` and scan code `scan`: Esc quits, Tab
    /// switches the launch mode, the arrows turn the page, and, while the argument
    /// field has the focus, Backspace and printable characters edit it. Returns
    /// whether the screen must be drawn again.
    pub fn handle_key(&mut self, asc: u8, scan: u8, width: u32, height: u32, split_y: u32) -> (r: bool)
        requires
            old(self)@.wf(),
            scan == 75 || scan == 77 ==> layout_ok(width, split_y),
        ensures
            final(self)@.wf(),
            (final(self)@, r) == old(self)@.key_effect(asc, scan, layout_spec(width, height, split_y)),
            ({
                let pc = old(self)@.page_count(layout_spec(width, height, split_y));
                &&& scan == 77 && old(self)@.page + 1 < pc ==> r && final(self)@.page == old(self)@.page + 1
                    && final(self)@.status == page_status((old(self)@.page + 1) as nat, pc)
                &&& scan == 77 && old(self)@.page + 1 >= pc ==> final(self)@.page == old(self)@.page
                &&& scan == 75 && old(self)@.page > 0 ==> r && final(self)@.page == old(self)@.page - 1
                    && final(self)@.status == page_status((old(self)@.page - 1) as nat, pc)
                &&& scan == 75 && old(self)@.page == 0 ==> final(self)@.page == 0
            }),
    {
        if scan == 1 {
            self.set_text_status("closing gui", MUTED);
            self.quit = true;
            return true;
        }
        if scan == 15 {
            self.detached = !self.detached;
            self.set_detach_status();
            return true;
        }
        if scan == 75 && self.page > 0 {
            self.page = self.page - 1;
            self.set_page_status(width, height, split_y);
            return true;
        }
        if scan == 77 {
            let count = self.page_count(width, height, split_y);
            let last_page = if count >= 1 {
                count - 1
            } else {
                0
            };
            if self.page < last_page {
                self.page = self.page + 1;
                self.set_page_status(width, height, split_y);
                return true;
            }
        }
        if !self.text_focus {
            return false;
        }
        if asc == 8 {
            if self.args.len() > 0 {
                self.args.pop();
                return true;
            }
            return false;
        }
        if 32 <= asc && asc <= 126 {
            if self.args.len() < MAX_ARG_CHARS {
                self.args.push(asc);
            } else {
                self.set_text_status("argument string is full", ERROR);
            }
            return true;
        }
        false
    }

    fn first_hit_exec(rects: &Vec<(usize, Rect)>, mx: i32, my: i32) -> (r: Option<usize>)
        requires
            forall|k: int| 0 <= k < rects@.len() ==> (#[trigger] rects@[k]).1.fits(),
        ensures
            match first_hit(rects@, mx, my) {
                Some(k) => r == Some(k as usize),
                None => r is None,
            },
            r matches Some(k) ==> k < rects@.len(),
    {
        let mut i: usize = 0;
        assert(rects@.subrange(0, rects@.len() as int) == rects@);
        while i < rects.len()
            invariant
                i <= rects@.len(),
                forall|k: int| 0 <= k < rects@.len() ==> (#[trigger] rects@[k]).1.fits(),
                first_hit(rects@, mx, my) == match first_hit(rects@.subrange(i as int, rects@.len() as int), mx, my) {
                    Some(k) => Some(k + i),
                    None => None,
                },
            decreases rects@.len() - i,
        {
            let ghost sub = rects@.subrange(i as int, rects@.len() as int);
            assert(sub[0] == rects@[i as int]);
            assert(sub.drop_first() == rects@.subrange(i + 1, rects@.len() as int));
            if rects[i].1.contains(mx, my) {
                return Some(i);
            }
            i = i + 1;
        }
        None
    }

    /// Handle a click at the mouse position: the exit button quits, the toggle
    /// switches the launch mode, the argument field takes the focus, the arrows
    /// turn the page; elsewhere the focus leaves the field, and a hit app button
    /// gives the app to start.
    pub fn handle_click(&mut self, width: u32, height: u32, split_y: u32) -> (r: Option<usize>)
        requires
            old(self)@.wf(),
            layout_ok(width, split_y),
        ensures
            final(self)@.wf(),
            (final(self)@, r) == old(self)@.click_effect(layout_spec(width, height, split_y)),
    {
        let l = layout(width, height, split_y);
        if l.exit.contains(self.mouse_x, self.mouse_y) {
            self.set_text_status("closing gui", MUTED);
            self.quit = true;
            return None;
        }
        if l.toggle.contains(self.mouse_x, self.mouse_y) {
            self.detached = !self.detached;
            self.set_detach_status();
            return None;
        }
        if l.args_field.contains(self.mouse_x, self.mouse_y) {
            self.text_focus = true;
            return None;
        }
        if self.page > 0 && l.prev.contains(self.mouse_x, self.mouse_y) {
            self.page = self.page - 1;
            self.set_page_status(width, height, split_y);
            return None;
        }
        let count = self.page_count(width, height, split_y);
        let last_page = if count >= 1 {
            count - 1
        } else {
            0
        };
        if self.page < last_page && l.next.contains(self.mouse_x, self.mouse_y) {
            self.page = self.page + 1;
            self.set_page_status(width, height, split_y);
            return None;
        }
        self.text_focus = false;
        let rects = self.visible_button_rects(width, height, split_y);
        assert(self@.visible(l) == old(self)@.visible(l));
        assert(rects@ == old(self)@.visible(l));
        proof {
            lemma_first_hit_range(rects@, self.mouse_x, self.mouse_y);
        }
        assert(self.mouse_x == old(self)@.mouse_x && self.mouse_y == old(self)@.mouse_y);
        proof {
            assert forall|k: int| 0 <= k < rects@.len() implies (#[trigger] rects@[k]).1.fits() by {
                let vis = old(self)@.visible(l);
                assert(rects@[k] == vis[k]);
                lemma_button_fits(l, k);
            }
        }
        match Gui::first_hit_exec(&rects, self.mouse_x, self.mouse_y) {
            Some(k) => {
                assert(rects@[k as int] == old(self)@.visible(l)[k as int]);
                Some(rects[k].0)
            },
            None => None,
        }
    }
}

/// The buttons of a page stay well within 32 bits.
proof fn lemma_button_ok(l: Layout, k: int, width: u32, bound: int)
    requires
        layout_sound(l),
        0 <= k < per_page_spec(l),
        l.body.x + l.body.w <= width,
        width + 64 <= u32::MAX,
        l.body.y + 10 + l.rows * 36 <= bound,
        bound + 64 <= u32::MAX,
    ensures
        rect_ok(button_rect(l, k)),
{
    lemma_button_fits(l, k);
}

/// The buttons of a page stay within 32 bits.
proof fn lemma_button_fits(l: Layout, k: int)
    requires
        layout_sound(l),
        0 <= k < per_page_spec(l),
    ensures
        button_rect(l, k).fits(),
        button_rect(l, k).x == l.body.x + 10 + (k % (l.columns as int)) * (button_rect(l, k).w + 8),
        button_rect(l, k).y == l.body.y + 10 + (k / (l.columns as int)) * 36,
        button_rect(l, k).x + button_rect(l, k).w <= l.body.x + l.body.w,
        button_rect(l, k).y + button_rect(l, k).h + 8 <= l.body.y + 10 + l.rows * 36,
{
    let c = l.columns as int;
    let col = k % c;
    let row = k / c;
    assert(0 <= col < c) by (nonlinear_arith)
        requires
            c >= 1,
            col == k % c,
            k >= 0,
    ;
    assert(0 <= row < l.rows) by (nonlinear_arith)
        requires
            c >= 1,
            row == k / c,
            0 <= k < c * l.rows,
    ;
    lemma_button_x(l, col);
    assert(row * 36 <= l.rows * 36 - 36) by (nonlinear_arith)
        requires
            0 <= row < l.rows,
    ;
}

/// The status line after starting app `name` gave process id `pid` (0: failed).
pub open spec fn launch_status(name: Seq<u8>, pid: nat, detached: bool) -> Seq<u8> {
    if pid == 0 {
        bytes_of("failed to start '") + name + bytes_of("'")
    } else if detached {
        bytes_of("started '") + name + bytes_of("' detached (pid ") + decimal(pid) + bytes_of(")")
    } else {
        bytes_of("'") + name + bytes_of("' finished")
    }
}

impl Gui {
    /// The launcher for a screen of `width` by `height` pixels whose part from row
    /// `split_y` down it uses, offering `apps` in sorted order; the mouse starts in
    /// the middle of its part and the argument field has the focus.
    pub fn new(apps: Vec<Vec<u8>>, width: u32, height: u32, split_y: u32) -> (r: Gui)
        requires
            screen_ok(width, height, split_y),
            apps@.len() < 0x1_0000_0000,
        ensures
            r@.wf(),
            lex_sorted(r@.apps),
            r@.apps.to_multiset() == views(apps@).to_multiset(),
            r@.args == Seq::<u8>::empty(),
            !r@.detached,
            r@.text_focus,
            r@.page == 0,
            r@.mouse_x == width / 2,
            r@.mouse_y == split_y + (height - split_y) / 2,
            !r@.mouse_down,
            !r@.quit,
            apps@.len() == 0 ==> r@.status == bytes_of("no user apps found in initrd") && r@.status_color == ERROR,
            apps@.len() > 0 ==> r@.status == bytes_of("ready: ") + decimal(apps@.len() as nat) + bytes_of(
                " apps available",
            ) && r@.status_color == SUCCESS,
    {
        let n = apps.len();
        let sorted = sort_bytes(apps);
        proof {
            assert(views(sorted@).len() == views(apps@).len()) by {
                views(sorted@).to_multiset_ensures();
                views(apps@).to_multiset_ensures();
            }
        }
        let mut gui = Gui {
            apps: sorted,
            args: Vec::new(),
            detached: false,
            text_focus: true,
            status: Vec::new(),
            status_color: MUTED,
            page: 0,
            mouse_x: (width / 2) as i32,
            mouse_y: (split_y + (height - split_y) / 2) as i32,
            mouse_down: false,
            quit: false,
        };
        if n == 0 {
            gui.set_text_status("no user apps found in initrd", ERROR);
        } else {
            let mut st: Vec<u8> = Vec::new();
            push_str(&mut st, "ready: ");
            push_decimal(&mut st, n as u64);
            push_str(&mut st, " apps available");
            assert(st@ == bytes_of("ready: ") + decimal(n as nat) + bytes_of(" apps available"));
            gui.set_status(st, SUCCESS);
        }
        gui
    }

    /// The launcher was asked to close.
    pub fn quit_requested(&self) -> (r: bool)
        ensures
            r == self@.quit,
    {
        self.quit
    }

    /// The name of app `app_index`.
    pub fn app_name(&self, app_index: usize) -> (r: &Vec<u8>)
        requires
            app_index < self@.apps.len(),
        ensures
            r@ == self@.apps[app_index as int],
    {
        &self.apps[app_index]
    }

    /// The arguments to start an app with: the argument field without white space
    /// at either end.
    pub fn launch_args(&self) -> (r: Vec<u8>)
        ensures
            r@ == trim(self@.args),
    {
        trim_bytes(self.args.as_slice())
    }

    /// Record how starting app `app_index` went: `pid` is the new process id, or 0
    /// when it failed. Returns whether the launcher is to wait for the process.
    pub fn launch_outcome(&mut self, app_index: usize, pid: usize) -> (r: bool)
        requires
            old(self)@.wf(),
            app_index < old(self)@.apps.len(),
            pid <= u64::MAX,
        ensures
            final(self)@.wf(),
            r == (pid != 0 && !old(self)@.detached),
            final(self)@ == old(self)@.with_status(
                launch_status(old(self)@.apps[app_index as int], pid as nat, old(self)@.detached),
                if pid == 0 { ERROR } else { SUCCESS },
            ),
    {
        let mut st: Vec<u8> = Vec::new();
        let name = self.apps[app_index].clone();
        assert(name@ == self@.apps[app_index as int]);
        if pid == 0 {
            push_str(&mut st, "failed to start '");
            push_bytes(&mut st, name.as_slice());
            push_str(&mut st, "'");
            assert(st@ == launch_status(name@, pid as nat, self.detached));
            self.set_status(st, ERROR);
            false
        } else if self.detached {
            push_str(&mut st, "started '");
            push_bytes(&mut st, name.as_slice());
            push_str(&mut st, "' detached (pid ");
            push_decimal(&mut st, pid as u64);
            push_str(&mut st, ")");
            assert(st@ == launch_status(name@, pid as nat, self.detached));
            self.set_status(st, SUCCESS);
            false
        } else {
            push_str(&mut st, "'");
            push_bytes(&mut st, name.as_slice());
            push_str(&mut st, "' finished");
            assert(st@ == launch_status(name@, pid as nat, self.detached));
            self.set_status(st, SUCCESS);
            true
        }
    }

    fn move_mouse(&mut self, dx: i16, dy: i16, buttons: u8, width: u32, height: u32, split_y: u32)
        requires
            old(self)@.wf(),
            screen_ok(width, height, split_y),
        ensures
            final(self)@.wf(),
            final(self)@ == (GuiView {
                mouse_x: clamp(old(self)@.mouse_x + dx, 0, sat_sub(width as int, 1)) as i32,
                mouse_y: clamp(old(self)@.mouse_y + dy, split_y as int, sat_sub(height as int, 1)) as i32,
                mouse_down: buttons & 1 != 0,
                ..old(self)@
            }),
    {
        let hi_x: i32 = if width >= 1 {
            (width - 1) as i32
        } else {
            0
        };
        let hi_y: i32 = if height >= 1 {
            (height - 1) as i32
        } else {
            0
        };
        let nx = self.mouse_x + dx as i32;
        let ny = self.mouse_y + dy as i32;
        self.mouse_x = if nx < 0 {
            0
        } else if nx > hi_x {
            hi_x
        } else {
            nx
        };
        let lo_y = split_y as i32;
        self.mouse_y = if ny < lo_y {
            lo_y
        } else if ny > hi_y {
            hi_y
        } else {
            ny
        };
        self.mouse_down = (buttons & 0x01) != 0;
    }

    /// Handle a mouse movement by (`dx`, `dy`) with the buttons `buttons` (bit 0:
    /// left). Returns whether the screen must be drawn again and the app to start
    /// if the left button was pressed on an app button.
    pub fn handle_mouse_event(
        &mut self,
        dx: i16,
        dy: i16,
        buttons: u8,
        width: u32,
        height: u32,
        split_y: u32,
    ) -> (r: (bool, Option<usize>))
        requires
            old(self)@.wf(),
            screen_ok(width, height, split_y),
        ensures
            final(self)@.wf(),
            (final(self)@, r.0, r.1) == old(self)@.mouse_effect(dx, dy, buttons, width, height, split_y),
    {
        let old_x = self.mouse_x;
        let old_y = self.mouse_y;
        let old_down = self.mouse_down;
        self.move_mouse(dx, dy, buttons, width, height, split_y);
        let ghost moved = self@;
        let launch = if self.mouse_down && !old_down {
            self.handle_click(width, height, split_y)
        } else {
            None
        };
        let ghost clicked = self@;
        if launch.is_some() {
            self.mouse_down = false;
        }
        proof {
            let (t, l2) = if moved.mouse_down && !old(self)@.mouse_down {
                moved.click_effect(layout_spec(width, height, split_y))
            } else {
                (moved, None)
            };
            assert(clicked == t && launch == l2);
        }
        (old_x != self.mouse_x || old_y != self.mouse_y || old_down != self.mouse_down, launch)
    }
}

/// The first pixel row of the launcher's part of the screen: the upper half,
/// rounded down to whole text lines (at least one line).
pub fn terminal_split_y(height: u32, char_h: u32) -> (r: u32)
    requires
        char_h > 0,
    ensures
        r == (if (height / 2) / char_h < 1 { 1 } else { (height / 2) / char_h }) * char_h,
{
    let rows = (height / 2) / char_h;
    let rows = if rows < 1 {
        1
    } else {
        rows
    };
    assert(rows * char_h <= if height / 2 >= char_h { (height / 2) as int } else { char_h as int }) by (nonlinear_arith)
        requires
            rows == (if (height / 2) / char_h < 1 { 1 } else { (height / 2) / char_h }),
            char_h > 0,
    ;
    rows * char_h
}

/// Background of the launcher.
pub const BG: u32 = 0x000c_1016;

/// Background of the panels.
pub const PANEL_BG: u32 = 0x0014_1b24;

/// The line above the launcher.
pub const PANEL_LINE: u32 = 0x0034_4354;

/// Color of text.
pub const TEXT: u32 = 0x00e6_ecf2;

/// Background of the argument field.
pub const FIELD_BG: u32 = 0x000a_0e13;

/// Border of an inactive field.
pub const FIELD_BORDER: u32 = 0x0046_5566;

/// Border of the field with the focus.
pub const FIELD_ACTIVE: u32 = 0x0097_bf0d;

/// Background of an app button.
pub const BUTTON_BG: u32 = 0x002a_3440;

/// Background of an app button under the mouse.
pub const BUTTON_HOVER: u32 = 0x0038_4554;

/// Background of an enabled page button.
pub const NAV_BG: u32 = 0x0028_3240;

/// Background of a disabled page button.
pub const NAV_DISABLED: u32 = 0x001b_222c;

/// Background of the exit button.
pub const EXIT_BG: u32 = 0x0078_1b2a;

/// Background of the exit button under the mouse.
pub const EXIT_HOVER: u32 = 0x00a5_2238;

/// Blue of the caret and of hovered controls.
pub const HIGHLIGHT: u32 = 0x0000_6ab3;

/// Green of the app buttons' edge and of the enabled toggle.
pub const GREEN: u32 = 0x0097_bf0d;

/// Red of the pressed mouse cursor.
pub const RED: u32 = 0x00aa_0000;

/// White of the toggle's slider.
pub const WHITE: u32 = 0x00ff_ffff;

/// Black of the mouse cursor's edge.
pub const BLACK: u32 = 0;

/// A drawing command of the launcher.
#[derive(Debug)]
pub enum GuiOp {
    /// Fill a rectangle.
    Fill { x: u32, y: u32, w: u32, h: u32, color: u32 },
    /// Draw `text` with its upper left corner at (`x`, `y`).
    Text { x: u32, y: u32, fg: u32, bg: u32, text: Vec<u8> },
    /// Show the drawn rectangle on the screen.
    Flush { x: u32, y: u32, w: u32, h: u32 },
}

/// A drawing command, with its text as bytes.
pub enum GuiOpSpec {
    Fill { x: u32, y: u32, w: u32, h: u32, color: u32 },
    Text { x: u32, y: u32, fg: u32, bg: u32, text: Seq<u8> },
    Flush { x: u32, y: u32, w: u32, h: u32 },
}

/// The command as seen by contracts.
pub open spec fn op_view(op: GuiOp) -> GuiOpSpec {
    match op {
        GuiOp::Fill { x, y, w, h, color } => GuiOpSpec::Fill { x, y, w, h, color },
        GuiOp::Text { x, y, fg, bg, text } => GuiOpSpec::Text { x, y, fg, bg, text: text@ },
        GuiOp::Flush { x, y, w, h } => GuiOpSpec::Flush { x, y, w, h },
    }
}

/// The commands as seen by contracts.
pub open spec fn ops_view(ops: Seq<GuiOp>) -> Seq<GuiOpSpec> {
    ops.map_values(|op: GuiOp| op_view(op))
}

pub open spec fn fill(r: Rect, color: u32) -> GuiOpSpec {
    GuiOpSpec::Fill { x: r.x, y: r.y, w: r.w, h: r.h, color }
}

/// At most the first `max` bytes of `text`.
pub open spec fn visible_prefix(text: Seq<u8>, max: int) -> Seq<u8> {
    if max <= 0 {
        Seq::empty()
    } else if text.len() <= max {
        text
    } else {
        text.subrange(0, max)
    }
}

/// At most the last `max` bytes of `text`.
pub open spec fn visible_tail(text: Seq<u8>, max: int) -> Seq<u8> {
    if max <= 0 {
        Seq::empty()
    } else if text.len() <= max {
        text
    } else {
        text.subrange(text.len() - max, text.len() as int)
    }
}

/// A box: the border color filled, then the inside one pixel smaller.
pub open spec fn box_ops(r: Rect, bg: u32, border: u32) -> Seq<GuiOpSpec> {
    seq![
        fill(r, border),
        GuiOpSpec::Fill {
            x: (r.x + 1) as u32,
            y: (r.y + 1) as u32,
            w: sat_sub(r.w as int, 2) as u32,
            h: sat_sub(r.h as int, 2) as u32,
            color: bg,
        },
    ]
}

/// A button with a label of 8-pixel glyphs, centered.
pub open spec fn labeled_button_ops(r: Rect, bg: u32, fg: u32, label: Seq<u8>) -> Seq<GuiOpSpec> {
    seq![
        fill(r, bg),
        GuiOpSpec::Text {
            x: (r.x + sat_sub(r.w as int, (label.len() * 8) as int) / 2) as u32,
            y: (r.y + 6) as u32,
            fg,
            bg,
            text: label,
        },
    ]
}

impl GuiView {
    /// The argument field.
    pub open spec fn text_field_ops(self, r: Rect, cw: u32, ch: u32) -> Seq<GuiOpSpec> {
        let border = if self.text_focus { FIELD_ACTIVE } else { FIELD_BORDER };
        let text_y = (r.y + sat_sub(r.h as int, ch as int) / 2) as u32;
        let visible_chars = sat_sub(r.w as int, 18) / (cw as int);
        let caret_h = sat_sub(r.h as int, 8) as u32;
        let field = if self.args.len() == 0 {
            seq![GuiOpSpec::Text { x: (r.x + 8) as u32, y: text_y, fg: MUTED, bg: FIELD_BG, text: bytes_of("type args here") }]
        } else {
            let visible = visible_tail(self.args, visible_chars);
            let t = seq![GuiOpSpec::Text { x: (r.x + 8) as u32, y: text_y, fg: TEXT, bg: FIELD_BG, text: visible }];
            if self.text_focus {
                t.push(GuiOpSpec::Fill {
                    x: (r.x + 8 + visible.len() * cw) as u32,
                    y: (r.y + 4) as u32,
                    w: 2,
                    h: caret_h,
                    color: HIGHLIGHT,
                })
            } else {
                t
            }
        };
        let caret = if self.args.len() == 0 && self.text_focus {
            seq![GuiOpSpec::Fill { x: (r.x + 8) as u32, y: (r.y + 4) as u32, w: 2, h: caret_h, color: HIGHLIGHT }]
        } else {
            Seq::empty()
        };
        box_ops(r, FIELD_BG, border) + field + caret
    }

    /// The detach toggle.
    pub open spec fn toggle_ops(self, r: Rect, ch: u32) -> Seq<GuiOpSpec> {
        let hovered = r.contains_spec(self.mouse_x, self.mouse_y);
        let border = if hovered { HIGHLIGHT } else if self.detached { GREEN } else { FIELD_BORDER };
        let track = Rect { x: (r.x + sat_sub(r.w as int, 34)) as u32, y: (r.y + 5) as u32, w: 22, h: sat_sub(r.h as int, 10) as u32 };
        let slider_x = if self.detached { (track.x + sat_sub(track.w as int, 10)) as u32 } else { (track.x + 2) as u32 };
        box_ops(r, PANEL_BG, border) + seq![
            GuiOpSpec::Text {
                x: (r.x + 8) as u32,
                y: (r.y + sat_sub(r.h as int, ch as int) / 2) as u32,
                fg: TEXT,
                bg: PANEL_BG,
                text: bytes_of("Detached"),
            },
            fill(track, if self.detached { GREEN } else { FIELD_BORDER }),
            GuiOpSpec::Fill {
                x: slider_x,
                y: (track.y + 2) as u32,
                w: 8,
                h: sat_sub(track.h as int, 4) as u32,
                color: WHITE,
            },
        ]
    }

    /// The button of an app with label `label`.
    pub open spec fn app_button_ops(self, r: Rect, label: Seq<u8>, ch: u32, cw: u32) -> Seq<GuiOpSpec> {
        let bg = if r.contains_spec(self.mouse_x, self.mouse_y) { BUTTON_HOVER } else { BUTTON_BG };
        let max_chars = sat_sub(r.w as int, 20) / (cw as int);
        seq![
            fill(r, bg),
            GuiOpSpec::Fill { x: r.x, y: r.y, w: 5, h: r.h, color: GREEN },
            GuiOpSpec::Text {
                x: (r.x + 12) as u32,
                y: (r.y + sat_sub(r.h as int, ch as int) / 2) as u32,
                fg: TEXT,
                bg,
                text: visible_prefix(label, max_chars),
            },
        ]
    }

    /// The buttons of the apps `vis` (index and rectangle each).
    pub open spec fn app_buttons_ops(self, vis: Seq<(usize, Rect)>, ch: u32, cw: u32) -> Seq<GuiOpSpec>
        decreases vis.len(),
    {
        if vis.len() == 0 {
            Seq::empty()
        } else {
            self.app_buttons_ops(vis.drop_last(), ch, cw) + self.app_button_ops(
                vis.last().1,
                self.apps[vis.last().0 as int],
                ch,
                cw,
            )
        }
    }

    /// A page button.
    pub open spec fn nav_button_ops(self, r: Rect, bg: u32, label: Seq<u8>, enabled: bool) -> Seq<GuiOpSpec> {
        let hovered = enabled && r.contains_spec(self.mouse_x, self.mouse_y);
        let draw_bg = if hovered { HIGHLIGHT } else { bg };
        let fg = if enabled { TEXT } else { MUTED };
        labeled_button_ops(r, draw_bg, fg, label)
    }

    /// The mouse cursor.
    pub open spec fn mouse_cursor_ops(self) -> Seq<GuiOpSpec> {
        let x = (if self.mouse_x < 0 { 0 } else { self.mouse_x as int }) as u32;
        let y = (if self.mouse_y < 0 { 0 } else { self.mouse_y as int }) as u32;
        let color = if self.mouse_down { RED } else { GREEN };
        seq![
            GuiOpSpec::Fill { x, y, w: CURSOR_SIZE, h: CURSOR_SIZE, color: BLACK },
            GuiOpSpec::Fill { x: (x + 1) as u32, y: (y + 1) as u32, w: (CURSOR_SIZE - 2) as u32, h: (CURSOR_SIZE - 2) as u32, color },
        ]
    }
}

/// The footer text with the number of apps.
pub open spec fn total_text(n: nat) -> Seq<u8> {
    decimal(n) + bytes_of(" apps total")
}

impl GuiView {
    /// The screen can be drawn: glyphs of at most 2^16 pixels, and a footer wide
    /// enough for the number of apps.
    pub open spec fn render_ok(self, width: u32, height: u32, split_y: u32, cw: u32, ch: u32) -> bool {
        let l = layout_spec(width, height, split_y);
        &&& self.wf()
        &&& draw_ok(width, height, split_y)
        &&& 0 < cw <= 0x1_0000
        &&& 0 < ch <= 0x1_0000
        &&& l.footer.x + l.footer.w >= total_text(self.apps.len()).len() * cw + 10
    }

    /// Background, panels, argument field, toggle and exit button.
    pub open spec fn head_ops(self, width: u32, height: u32, split_y: u32, cw: u32, ch: u32) -> Seq<GuiOpSpec> {
        let l = layout_spec(width, height, split_y);
        let rest_h = sat_sub(height as int, split_y as int) as u32;
        seq![
            GuiOpSpec::Fill { x: 0, y: split_y, w: width, h: rest_h, color: BG },
            GuiOpSpec::Fill { x: 0, y: split_y, w: width, h: 2, color: PANEL_LINE },
            fill(l.header, PANEL_BG),
            fill(l.body, PANEL_BG),
            fill(l.footer, PANEL_BG),
        ] + self.text_field_ops(l.args_field, cw, ch) + self.toggle_ops(l.toggle, ch) + labeled_button_ops(
            l.exit,
            if l.exit.contains_spec(self.mouse_x, self.mouse_y) { EXIT_HOVER } else { EXIT_BG },
            TEXT,
            bytes_of("Exit"),
        )
    }

    /// The app buttons of the page, or a note that there are no apps.
    pub open spec fn apps_ops(self, l: Layout, cw: u32, ch: u32) -> Seq<GuiOpSpec> {
        if self.apps.len() == 0 {
            seq![
                GuiOpSpec::Text {
                    x: (l.body.x + 14) as u32,
                    y: (l.body.y + 14) as u32,
                    fg: ERROR,
                    bg: PANEL_BG,
                    text: bytes_of("No runnable user apps found in initrd."),
                },
            ]
        } else {
            self.app_buttons_ops(self.visible(l), ch, cw)
        }
    }

    /// The two page buttons, for `pc` pages.
    pub open spec fn nav_ops(self, l: Layout, pc: int) -> Seq<GuiOpSpec> {
        self.nav_button_ops(
            l.prev,
            if self.page > 0 { NAV_BG } else { NAV_DISABLED },
            bytes_of("<"),
            self.page > 0,
        ) + self.nav_button_ops(
            l.next,
            if self.page + 1 < pc { NAV_BG } else { NAV_DISABLED },
            bytes_of(">"),
            self.page + 1 < pc,
        )
    }

    /// The footer texts: page, number of apps, status line (as much as fits).
    pub open spec fn footer_ops(self, l: Layout, pc: int, cw: u32, ch: u32) -> Seq<GuiOpSpec> {
        let fy = (l.footer.y + sat_sub(l.footer.h as int, ch as int) / 2) as u32;
        let page_text = page_status(self.page, pc);
        let page_x = (l.page_label.x + sat_sub(l.page_label.w as int, page_text.len() * cw) / 2) as u32;
        let tt = total_text(self.apps.len());
        let total_x = l.footer.x + l.footer.w - tt.len() * cw - 10;
        let reserved_right = l.footer.x + l.footer.w - total_x + 10;
        let reserved_center = l.page_label.w + l.prev.w + l.next.w + 24;
        let status_chars = sat_sub(l.footer.w as int, reserved_right + reserved_center + 24) / (cw as int);
        seq![
            GuiOpSpec::Text { x: page_x, y: fy, fg: TEXT, bg: PANEL_BG, text: page_text },
            GuiOpSpec::Text { x: total_x as u32, y: fy, fg: MUTED, bg: PANEL_BG, text: tt },
            GuiOpSpec::Text {
                x: (l.footer.x + 10) as u32,
                y: fy,
                fg: self.status_color,
                bg: PANEL_BG,
                text: visible_prefix(self.status, status_chars),
            },
        ]
    }

    /// Everything the launcher draws, in order.
    pub open spec fn render_spec(self, width: u32, height: u32, split_y: u32, cw: u32, ch: u32) -> Seq<GuiOpSpec> {
        let l = layout_spec(width, height, split_y);
        let pc = self.page_count(l);
        let rest_h = sat_sub(height as int, split_y as int) as u32;
        self.head_ops(width, height, split_y, cw, ch) + self.apps_ops(l, cw, ch) + self.nav_ops(l, pc)
            + self.footer_ops(l, pc, cw, ch) + self.mouse_cursor_ops() + seq![
            GuiOpSpec::Flush { x: 0, y: split_y, w: width, h: rest_h },
        ]
    }
}

fn push_fill(out: &mut Vec<GuiOp>, x: u32, y: u32, w: u32, h: u32, color: u32)
    ensures
        ops_view(final(out)@) == ops_view(old(out)@).push(GuiOpSpec::Fill { x, y, w, h, color }),
{
    out.push(GuiOp::Fill { x, y, w, h, color });
    assert(ops_view(out@) == ops_view(old(out)@).push(GuiOpSpec::Fill { x, y, w, h, color }));
}

fn push_flush(out: &mut Vec<GuiOp>, x: u32, y: u32, w: u32, h: u32)
    ensures
        ops_view(final(out)@) == ops_view(old(out)@).push(GuiOpSpec::Flush { x, y, w, h }),
{
    out.push(GuiOp::Flush { x, y, w, h });
    assert(ops_view(out@) == ops_view(old(out)@).push(GuiOpSpec::Flush { x, y, w, h }));
}

fn push_text(out: &mut Vec<GuiOp>, x: u32, y: u32, fg: u32, bg: u32, text: Vec<u8>)
    ensures
        ops_view(final(out)@) == ops_view(old(out)@).push(GuiOpSpec::Text { x, y, fg, bg, text: text@ }),
{
    let ghost t = text@;
    out.push(GuiOp::Text { x, y, fg, bg, text });
    assert(ops_view(out@) == ops_view(old(out)@).push(GuiOpSpec::Text { x, y, fg, bg, text: t }));
}

fn text_of(s: &str) -> (r: Vec<u8>)
    ensures
        r@ == bytes_of(s),
{
    let mut v: Vec<u8> = Vec::new();
    push_str(&mut v, s);
    assert(v@ == bytes_of(s));
    v
}

fn prefix_of(text: &Vec<u8>, max: usize) -> (r: Vec<u8>)
    ensures
        r@ == visible_prefix(text@, max as int),
{
    if max == 0 {
        Vec::new()
    } else if text.len() <= max {
        text.clone()
    } else {
        copy_range(text.as_slice(), 0, max)
    }
}

fn tail_of(text: &Vec<u8>, max: usize) -> (r: Vec<u8>)
    ensures
        r@ == visible_tail(text@, max as int),
{
    if max == 0 {
        Vec::new()
    } else if text.len() <= max {
        text.clone()
    } else {
        copy_range(text.as_slice(), text.len() - max, text.len())
    }
}

/// The rectangle ends far enough below the end of the 32-bit range for the
/// offsets of what is drawn in it.
pub open spec fn rect_ok(r: Rect) -> bool {
    r.x + r.w + 64 <= u32::MAX && r.y + r.h + 64 <= u32::MAX
}

/// The screen can hold the launcher's drawing: it can be laid out, and the
/// screen and the launcher's part end far enough below the end of the 32-bit
/// range for the offsets of what is drawn.
pub open spec fn draw_ok(width: u32, height: u32, split_y: u32) -> bool {
    &&& layout_ok(width, split_y)
    &&& width + 200 <= u32::MAX
    &&& height + 64 <= u32::MAX
    &&& split_y + 200 <= u32::MAX
}

fn push_box(out: &mut Vec<GuiOp>, r: Rect, bg: u32, border: u32)
    requires
        rect_ok(r),
    ensures
        ops_view(final(out)@) == ops_view(old(out)@) + box_ops(r, bg, border),
{
    push_fill(out, r.x, r.y, r.w, r.h, border);
    push_fill(out, r.x + 1, r.y + 1, sat_sub_u32(r.w, 2), sat_sub_u32(r.h, 2), bg);
}

fn push_labeled_button(out: &mut Vec<GuiOp>, r: Rect, bg: u32, fg: u32, label: &str)
    requires
        rect_ok(r),
    ensures
        ops_view(final(out)@) == ops_view(old(out)@) + labeled_button_ops(r, bg, fg, bytes_of(label)),
{
    push_fill(out, r.x, r.y, r.w, r.h, bg);
    let text = text_of(label);
    let gap: u32 = if text.len() <= 0x2000_0000 && (text.len() as u64) * 8 <= r.w as u64 {
        ((r.w as u64 - (text.len() as u64) * 8) / 2) as u32
    } else {
        0
    };
    assert(gap == sat_sub(r.w as int, (text@.len() * 8) as int) / 2);
    let text_x = r.x + gap;
    push_text(out, text_x, r.y + 6, fg, bg, text);
}

impl Gui {
    fn draw_text_field(&self, out: &mut Vec<GuiOp>, r: Rect, cw: u32, ch: u32)
        requires
            rect_ok(r),
            0 < cw <= 0x1_0000,
            0 < ch <= 0x1_0000,
        ensures
            ops_view(final(out)@) == ops_view(old(out)@) + self@.text_field_ops(r, cw, ch),
    {
        let ghost start = ops_view(out@);
        let border = if self.text_focus {
            FIELD_ACTIVE
        } else {
            FIELD_BORDER
        };
        push_box(out, r, FIELD_BG, border);
        let ghost after_box = ops_view(out@);
        let text_y = r.y + sat_sub_u32(r.h, ch) / 2;
        let visible_chars = sat_sub_u32(r.w, 18) / cw;
        let caret_h = sat_sub_u32(r.h, 8);
        if self.args.len() == 0 {
            push_text(out, r.x + 8, text_y, MUTED, FIELD_BG, text_of("type args here"));
        } else {
            let visible = tail_of(&self.args, visible_chars as usize);
            let vlen = visible.len() as u32;
            assert(vlen * cw <= r.w) by (nonlinear_arith)
                requires
                    vlen <= visible_chars,
                    visible_chars == sat_sub(r.w as int, 18) / (cw as int),
                    cw > 0,
            ;
            push_text(out, r.x + 8, text_y, TEXT, FIELD_BG, visible);
            if self.text_focus {
                push_fill(out, r.x + 8 + vlen * cw, r.y + 4, 2, caret_h, HIGHLIGHT);
            }
        }
        let ghost after_field = ops_view(out@);
        if self.args.len() == 0 && self.text_focus {
            push_fill(out, r.x + 8, r.y + 4, 2, caret_h, HIGHLIGHT);
        }
        proof {
            let v = self@;
            let field = after_field.subrange(after_box.len() as int, after_field.len() as int);
            assert(after_field == after_box + field);
            assert(ops_view(out@) == after_field + ops_view(out@).subrange(after_field.len() as int, ops_view(out@).len() as int));
        }
    }

    fn draw_toggle(&self, out: &mut Vec<GuiOp>, r: Rect, ch: u32)
        requires
            rect_ok(r),
            0 < ch <= 0x1_0000,
        ensures
            ops_view(final(out)@) == ops_view(old(out)@) + self@.toggle_ops(r, ch),
    {
        let hovered = r.contains(self.mouse_x, self.mouse_y);
        let border = if hovered {
            HIGHLIGHT
        } else if self.detached {
            GREEN
        } else {
            FIELD_BORDER
        };
        push_box(out, r, PANEL_BG, border);
        let text_y = r.y + sat_sub_u32(r.h, ch) / 2;
        push_text(out, r.x + 8, text_y, TEXT, PANEL_BG, text_of("Detached"));
        let track = Rect { x: r.x + sat_sub_u32(r.w, 34), y: r.y + 5, w: 22, h: sat_sub_u32(r.h, 10) };
        push_fill(out, track.x, track.y, track.w, track.h, if self.detached {
            GREEN
        } else {
            FIELD_BORDER
        });
        let slider_x = if self.detached {
            track.x + sat_sub_u32(track.w, 10)
        } else {
            track.x + 2
        };
        push_fill(out, slider_x, track.y + 2, 8, sat_sub_u32(track.h, 4), WHITE);
    }

    fn draw_app_button(&self, out: &mut Vec<GuiOp>, r: Rect, label: &Vec<u8>, ch: u32, cw: u32)
        requires
            rect_ok(r),
            0 < cw <= 0x1_0000,
            0 < ch <= 0x1_0000,
        ensures
            ops_view(final(out)@) == ops_view(old(out)@) + self@.app_button_ops(r, label@, ch, cw),
    {
        let bg = if r.contains(self.mouse_x, self.mouse_y) {
            BUTTON_HOVER
        } else {
            BUTTON_BG
        };
        push_fill(out, r.x, r.y, r.w, r.h, bg);
        push_fill(out, r.x, r.y, 5, r.h, GREEN);
        let max_chars = sat_sub_u32(r.w, 20) / cw;
        push_text(out, r.x + 12, r.y + sat_sub_u32(r.h, ch) / 2, TEXT, bg, prefix_of(label, max_chars as usize));
    }

    fn draw_nav_button(&self, out: &mut Vec<GuiOp>, r: Rect, bg: u32, label: &str, enabled: bool)
        requires
            rect_ok(r),
        ensures
            ops_view(final(out)@) == ops_view(old(out)@) + self@.nav_button_ops(r, bg, bytes_of(label), enabled),
    {
        let hovered = enabled && r.contains(self.mouse_x, self.mouse_y);
        let draw_bg = if hovered {
            HIGHLIGHT
        } else {
            bg
        };
        let fg = if enabled {
            TEXT
        } else {
            MUTED
        };
        push_labeled_button(out, r, draw_bg, fg, label);
    }

    fn draw_mouse_cursor(&self, out: &mut Vec<GuiOp>)
        requires
            self@.wf(),
        ensures
            ops_view(final(out)@) == ops_view(old(out)@) + self@.mouse_cursor_ops(),
    {
        let x: u32 = if self.mouse_x < 0 {
            0
        } else {
            self.mouse_x as u32
        };
        let y: u32 = if self.mouse_y < 0 {
            0
        } else {
            self.mouse_y as u32
        };
        let color = if self.mouse_down {
            RED
        } else {
            GREEN
        };
        push_fill(out, x, y, CURSOR_SIZE, CURSOR_SIZE, BLACK);
        push_fill(out, x + 1, y + 1, CURSOR_SIZE - 2, CURSOR_SIZE - 2, color);
    }
}

impl Gui {
    fn draw_app_buttons(&self, out: &mut Vec<GuiOp>, rects: &Vec<(usize, Rect)>, ch: u32, cw: u32)
        requires
            0 < cw <= 0x1_0000,
            0 < ch <= 0x1_0000,
            forall|k: int| 0 <= k < rects@.len() ==> rect_ok(#[trigger] rects@[k].1),
            forall|k: int| 0 <= k < rects@.len() ==> (#[trigger] rects@[k]).0 < self@.apps.len(),
        ensures
            ops_view(final(out)@) == ops_view(old(out)@) + self@.app_buttons_ops(rects@, ch, cw),
    {
        let mut i: usize = 0;
        assert(rects@.subrange(0, 0) == Seq::<(usize, Rect)>::empty());
        assert(ops_view(out@) == ops_view(old(out)@) + Seq::<GuiOpSpec>::empty());
        while i < rects.len()
            invariant
                i <= rects@.len(),
                0 < cw <= 0x1_0000,
                0 < ch <= 0x1_0000,
                forall|k: int| 0 <= k < rects@.len() ==> rect_ok(#[trigger] rects@[k].1),
                forall|k: int| 0 <= k < rects@.len() ==> (#[trigger] rects@[k]).0 < self@.apps.len(),
                ops_view(out@) == ops_view(old(out)@) + self@.app_buttons_ops(rects@.subrange(0, i as int), ch, cw),
            decreases rects@.len() - i,
        {
            let (app_index, rect) = rects[i];
            assert(rect_ok(rects@[i as int].1));
            assert(self.apps@.len() == self@.apps.len());
            let ghost before = ops_view(out@);
            self.draw_app_button(out, rect, &self.apps[app_index], ch, cw);
            proof {
                let sub = rects@.subrange(0, i + 1);
                assert(sub.drop_last() == rects@.subrange(0, i as int));
                assert(sub.last() == rects@[i as int]);
                assert(self.apps@[app_index as int]@ == self@.apps[app_index as int]);
            }
            i = i + 1;
        }
        assert(rects@.subrange(0, rects@.len() as int) == rects@);
    }

    fn draw_head(&self, out: &mut Vec<GuiOp>, width: u32, height: u32, split_y: u32, char_w: u32, char_h: u32)
        requires
            self@.render_ok(width, height, split_y, char_w, char_h),
        ensures
            ops_view(final(out)@) == ops_view(old(out)@) + self@.head_ops(width, height, split_y, char_w, char_h),
    {
        let l = layout(width, height, split_y);
        let rest_h = sat_sub_u32(height, split_y);
        let ghost o0 = ops_view(out@);
        push_fill(out, 0, split_y, width, rest_h, BG);
        push_fill(out, 0, split_y, width, 2, PANEL_LINE);
        push_fill(out, l.header.x, l.header.y, l.header.w, l.header.h, PANEL_BG);
        push_fill(out, l.body.x, l.body.y, l.body.w, l.body.h, PANEL_BG);
        push_fill(out, l.footer.x, l.footer.y, l.footer.w, l.footer.h, PANEL_BG);
        let ghost o1 = ops_view(out@);
        self.draw_text_field(out, l.args_field, char_w, char_h);
        let ghost o2 = ops_view(out@);
        self.draw_toggle(out, l.toggle, char_h);
        let ghost o3 = ops_view(out@);
        let exit_bg = if l.exit.contains(self.mouse_x, self.mouse_y) {
            EXIT_HOVER
        } else {
            EXIT_BG
        };
        push_labeled_button(out, l.exit, exit_bg, TEXT, "Exit");
        proof {
            let v = self@;
            let first = seq![
                GuiOpSpec::Fill { x: 0, y: split_y, w: width, h: rest_h, color: BG },
                GuiOpSpec::Fill { x: 0, y: split_y, w: width, h: 2, color: PANEL_LINE },
                fill(l.header, PANEL_BG),
                fill(l.body, PANEL_BG),
                fill(l.footer, PANEL_BG),
            ];
            assert(o1 == o0 + first);
            let a = v.text_field_ops(l.args_field, char_w, char_h);
            let b = v.toggle_ops(l.toggle, char_h);
            let c = labeled_button_ops(l.exit, exit_bg, TEXT, bytes_of("Exit"));
            assert(ops_view(out@) == o0 + first + a + b + c);
        }
    }

    fn draw_apps(&self, out: &mut Vec<GuiOp>, width: u32, height: u32, split_y: u32, char_w: u32, char_h: u32)
        requires
            self@.render_ok(width, height, split_y, char_w, char_h),
        ensures
            ops_view(final(out)@) == ops_view(old(out)@) + self@.apps_ops(layout_spec(width, height, split_y), char_w, char_h),
    {
        let l = layout(width, height, split_y);
        assert(self.apps@.len() == self@.apps.len());
        if self.apps.len() == 0 {
            push_text(out, l.body.x + 14, l.body.y + 14, ERROR, PANEL_BG, text_of("No runnable user apps found in initrd."));
        } else {
            let rects = self.visible_button_rects(width, height, split_y);
            proof {
                assert forall|k: int| 0 <= k < rects@.len() implies rect_ok(#[trigger] rects@[k].1) by {
                    let vis = self@.visible(l);
                    assert(rects@[k] == vis[k]);
                    lemma_button_ok(l, k, width, if height > split_y + 100 { height as int } else { split_y + 100 });
                }
                assert forall|k: int| 0 <= k < rects@.len() implies (#[trigger] rects@[k]).0 < self@.apps.len() by {
                    let vis = self@.visible(l);
                    assert(rects@[k] == vis[k]);
                }
            }
            self.draw_app_buttons(out, &rects, char_h, char_w);
        }
    }

    fn draw_nav(&self, out: &mut Vec<GuiOp>, width: u32, height: u32, split_y: u32, page_count: usize)
        requires
            draw_ok(width, height, split_y),
            self@.wf(),
            page_count >= 1,
        ensures
            ops_view(final(out)@) == ops_view(old(out)@) + self@.nav_ops(layout_spec(width, height, split_y), page_count as int),
    {
        let l = layout(width, height, split_y);
        let ghost o0 = ops_view(out@);
        self.draw_nav_button(out, l.prev, if self.page > 0 {
            NAV_BG
        } else {
            NAV_DISABLED
        }, "<", self.page > 0);
        let ghost o1 = ops_view(out@);
        let next_enabled = self.page < page_count - 1;
        self.draw_nav_button(out, l.next, if next_enabled {
            NAV_BG
        } else {
            NAV_DISABLED
        }, ">", next_enabled);
        assert(ops_view(out@) == o0 + (o1.subrange(o0.len() as int, o1.len() as int)) + ops_view(out@).subrange(o1.len() as int, ops_view(out@).len() as int));
    }

    fn draw_footer(&self, out: &mut Vec<GuiOp>, width: u32, height: u32, split_y: u32, char_w: u32, char_h: u32)
        requires
            self@.render_ok(width, height, split_y, char_w, char_h),
        ensures
            ops_view(final(out)@) == ops_view(old(out)@) + self@.footer_ops(
                layout_spec(width, height, split_y),
                self@.page_count(layout_spec(width, height, split_y)),
                char_w,
                char_h,
            ),
    {
        let l = layout(width, height, split_y);
        let page_count = self.page_count(width, height, split_y);
        let mut page_text: Vec<u8> = Vec::new();
        push_str(&mut page_text, "page ");
        push_decimal(&mut page_text, self.page as u64 + 1);
        push_str(&mut page_text, "/");
        push_decimal(&mut page_text, page_count as u64);
        assert(page_text@ == page_status(self@.page, page_count as int));
        let fy = l.footer.y + sat_sub_u32(l.footer.h, char_h) / 2;
        let page_w: u32 = if page_text.len() <= 0x1000 {
            assert(page_text@.len() * char_w <= 0x1000 * 0x1_0000) by (nonlinear_arith)
                requires
                    page_text@.len() <= 0x1000,
                    char_w <= 0x1_0000,
            ;
            page_text.len() as u32 * char_w
        } else {
            u32::MAX
        };
        proof {
            if page_text@.len() > 0x1000 {
                assert(page_text@.len() * char_w > 0x1000) by (nonlinear_arith)
                    requires
                        page_text@.len() > 0x1000,
                        char_w >= 1,
                ;
            }
        }
        assert(sat_sub(l.page_label.w as int, page_w as int) == sat_sub(l.page_label.w as int, page_text@.len() * char_w));
        let page_x = l.page_label.x + sat_sub_u32(l.page_label.w, page_w) / 2;
        push_text(out, page_x, fy, TEXT, PANEL_BG, page_text);
        let mut total: Vec<u8> = Vec::new();
        push_decimal(&mut total, self.apps.len() as u64);
        push_str(&mut total, " apps total");
        assert(self.apps@.len() == self@.apps.len());
        assert(total@ == total_text(self@.apps.len()));
        assert(total@.len() <= total@.len() * char_w) by (nonlinear_arith)
            requires
                char_w >= 1,
        ;
        assert(total@.len() <= u32::MAX);
        let total_len = total.len() as u32;
        assert(total_len * char_w <= l.footer.x + l.footer.w - 10);
        let total_x = l.footer.x + l.footer.w - total_len * char_w - 10;
        let reserved_right = l.footer.x + l.footer.w - total_x + 10;
        let reserved_center = l.page_label.w + l.prev.w + l.next.w + 24;
        let status_chars = sat_sub_u32(l.footer.w, reserved_right + reserved_center + 24) / char_w;
        push_text(out, total_x, fy, MUTED, PANEL_BG, total);
        push_text(out, l.footer.x + 10, fy, self.status_color, PANEL_BG, prefix_of(&self.status, status_chars as usize));
    }

    /// Everything to draw for the launcher's part of the screen, given glyphs of
    /// `char_w` by `char_h` pixels: background and panels, the argument field, the
    /// toggle, the exit button, the app buttons of the page, the page buttons, the
    /// footer texts, the mouse cursor; then the part is shown.
    pub fn render(&self, width: u32, height: u32, split_y: u32, char_w: u32, char_h: u32) -> (r: Vec<GuiOp>)
        requires
            self@.render_ok(width, height, split_y, char_w, char_h),
        ensures
            ops_view(r@) == self@.render_spec(width, height, split_y, char_w, char_h),
    {
        let page_count = self.page_count(width, height, split_y);
        let mut out: Vec<GuiOp> = Vec::new();
        let ghost l = layout_spec(width, height, split_y);
        let ghost v = self@;
        self.draw_head(&mut out, width, height, split_y, char_w, char_h);
        let ghost a = ops_view(out@);
        self.draw_apps(&mut out, width, height, split_y, char_w, char_h);
        let ghost b = ops_view(out@);
        self.draw_nav(&mut out, width, height, split_y, page_count);
        let ghost c = ops_view(out@);
        self.draw_footer(&mut out, width, height, split_y, char_w, char_h);
        let ghost d = ops_view(out@);
        self.draw_mouse_cursor(&mut out);
        let ghost e = ops_view(out@);
        let rest_h = sat_sub_u32(height, split_y);
        push_flush(&mut out, 0, split_y, width, rest_h);
        proof {
            assert(ops_view(Seq::<GuiOp>::empty()) == Seq::<GuiOpSpec>::empty());
            assert(a == v.head_ops(width, height, split_y, char_w, char_h));
        }
        out
    }
}

/// Rectangles `a` and `b` share no pixel.
pub open spec fn apart(a: Rect, b: Rect) -> bool {
    a.x + a.w <= b.x || b.x + b.w <= a.x || a.y + a.h <= b.y || b.y + b.h <= a.y
}

/// The app buttons of a page never overlap: any two of them share no pixel.
pub proof fn law_visible_buttons_apart(v: GuiView, l: Layout, i: int, j: int)
    requires
        layout_sound(l),
        0 <= i < j < v.visible(l).len(),
    ensures
        apart(v.visible(l)[i].1, v.visible(l)[j].1),
{
    let c = l.columns as int;
    assert(v.visible(l).len() <= per_page_spec(l));
    assert(v.visible(l)[i].1 == button_rect(l, i));
    assert(v.visible(l)[j].1 == button_rect(l, j));
    lemma_button_fits(l, i);
    lemma_button_fits(l, j);
    let a = button_rect(l, i);
    let b = button_rect(l, j);
    let w = a.w as int;
    assert(a.w == b.w);
    vstd::arithmetic::div_mod::lemma_fundamental_div_mod(i, c);
    vstd::arithmetic::div_mod::lemma_fundamental_div_mod(j, c);
    let ri = i / c;
    let rj = j / c;
    let ci = i % c;
    let cj = j % c;
    if ri < rj {
        assert(ri * 36 + 36 <= rj * 36) by (nonlinear_arith)
            requires
                ri < rj,
        ;
    } else if rj < ri {
        assert(rj * 36 + 36 <= ri * 36) by (nonlinear_arith)
            requires
                rj < ri,
        ;
    } else {
        assert(ci != cj) by {
            if ci == cj {
                assert(c * ri + ci == c * rj + cj);
            }
        }
        if ci < cj {
            assert(ci * (w + 8) + w + 8 <= cj * (w + 8)) by (nonlinear_arith)
                requires
                    ci < cj,
                    w >= 0,
            ;
        } else {
            assert(cj * (w + 8) + w + 8 <= ci * (w + 8)) by (nonlinear_arith)
                requires
                    cj < ci,
                    w >= 0,
            ;
        }
    }
}

/// The arrow keys turn the pages of app buttons: the right arrow (scan code 77)
/// goes to the next page unless the page is the last, the left arrow (75) to
/// the previous one unless it is the first; either shows the page reached, and
/// neither leaves the range of pages.
pub proof fn law_arrows_turn_pages(v: GuiView, asc: u8, l: Layout)
    requires
        v.wf(),
    ensures
        ({
            let pc = v.page_count(l);
            let (right, rr) = v.key_effect(asc, 77, l);
            let (left, lr) = v.key_effect(asc, 75, l);
            &&& v.page + 1 < pc ==> rr && right.page == v.page + 1 && right.status == page_status(
                (v.page + 1) as nat,
                pc,
            )
            &&& v.page + 1 >= pc ==> right.page == v.page
            &&& v.page > 0 ==> lr && left.page == v.page - 1 && left.status == page_status(
                (v.page - 1) as nat,
                pc,
            )
            &&& v.page == 0 ==> left.page == 0
        }),
{
}

/// Esc (scan code 1) asks the launcher to close, and Tab (scan code 15) switches
/// between waiting for a started app and leaving it detached: pressing Tab
/// twice restores the launch mode. Both ask for the screen to be drawn again.
pub proof fn law_escape_and_tab(v: GuiView, asc: u8, asc2: u8, l: Layout)
    requires
        v.wf(),
    ensures
        v.key_effect(asc, 1, l).0.quit,
        v.key_effect(asc, 1, l).1,
        v.key_effect(asc, 15, l).0.detached == !v.detached,
        v.key_effect(asc, 15, l).1,
        v.key_effect(asc, 15, l).0.key_effect(asc2, 15, l).0.detached == v.detached,
        v.key_effect(asc, 15, l).0.page == v.page,
{
}

} // verus!
