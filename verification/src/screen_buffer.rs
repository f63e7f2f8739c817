use vstd::prelude::*;

use crate::cell::{blank_cell, Cell};
use crate::color::{darken_color, Color, Darkening};

verus! {

/// The sky blue that the screen is painted with, and that stands for any
/// position off the screen.
pub open spec fn sky() -> Color {
    Color::Rgb { r: 135, g: 206, b: 250 }
}

/// The sky blue, in executable code.
pub fn sky_color() -> (c: Color)
    ensures
        c == sky(),
{
    Color::Rgb { r: 135, g: 206, b: 250 }
}

/// One instruction to the terminal, in the order in which they are sent.
#[derive(Clone, Copy, Debug, PartialEq, Eq, Structural)]
pub enum TermCommand {
    /// Sets both colors back to the terminal's defaults.
    ResetColor,
    /// Moves the cursor to the given column and row.
    MoveTo(u16, u16),
    SetBackgroundColor(Color),
    SetForegroundColor(Color),
    /// Writes one character at the cursor, in the current colors, and moves
    /// the cursor one column to the right.
    Print(char),
}

/// What a terminal shows and the state that the next character is written in.
pub struct Terminal {
    pub cells: Seq<Cell>,
    pub col: int,
    pub row: int,
    pub fg: Color,
    pub bg: Color,
}

/// The effect of one command on a terminal `width` columns wide.
pub open spec fn apply_command(t: Terminal, width: int, cmd: TermCommand) -> Terminal {
    match cmd {
        TermCommand::ResetColor => Terminal {
            cells: t.cells,
            col: t.col,
            row: t.row,
            fg: Color::Reset,
            bg: Color::Reset,
        },
        TermCommand::MoveTo(x, y) => Terminal { cells: t.cells, col: x as int, row: y as int, fg: t.fg, bg: t.bg },
        TermCommand::SetBackgroundColor(c) => Terminal { cells: t.cells, col: t.col, row: t.row, fg: t.fg, bg: c },
        TermCommand::SetForegroundColor(c) => Terminal { cells: t.cells, col: t.col, row: t.row, fg: c, bg: t.bg },
        TermCommand::Print(ch) => {
            let i = t.row * width + t.col;
            Terminal {
                cells: if 0 <= t.col < width && 0 <= i < t.cells.len() {
                    t.cells.update(i, Cell { ch, fg: t.fg, bg: t.bg })
                } else {
                    t.cells
                },
                col: t.col + 1,
                row: t.row,
                fg: t.fg,
                bg: t.bg,
            }
        },
    }
}

/// The terminal after it has received `cmds`, first to last.
pub open spec fn replay(t: Terminal, width: int, cmds: Seq<TermCommand>) -> Terminal
    decreases cmds.len(),
{
    if cmds.len() == 0 {
        t
    } else {
        apply_command(replay(t, width, cmds.drop_last()), width, cmds.last())
    }
}

pub proof fn lemma_replay_push(t: Terminal, width: int, cmds: Seq<TermCommand>, c: TermCommand)
    ensures
        replay(t, width, cmds.push(c)) == apply_command(replay(t, width, cmds), width, c),
{
    assert(cmds.push(c).drop_last() =~= cmds);
}

/// The position of cell `(x, y)` in a frame stored row by row, `w` cells a row.
pub open spec fn cell_index(w: int, x: int, y: int) -> int {
    y * w + x
}

/// `c` is the sky color darkened for row `y` of `h` rows, each channel
/// passed through `shade`.
pub open spec fn shaded_sky<F: Fn(u16, u16, u8) -> u8>(shade: F, y: u16, h: u16, c: Color) -> bool {
    match c {
        Color::Rgb { r, g, b } => {
            &&& shade.ensures((y, h, 135u8), r)
            &&& shade.ensures((y, h, 206u8), g)
            &&& shade.ensures((y, h, 250u8), b)
        },
        _ => false,
    }
}

/// How many characters `cmds` print.
pub open spec fn print_count(cmds: Seq<TermCommand>) -> nat
    decreases cmds.len(),
{
    if cmds.len() == 0 {
        0
    } else {
        print_count(cmds.drop_last()) + if cmds.last() is Print {
            1nat
        } else {
            0nat
        }
    }
}

/// How many of the first `k` cells differ between frames `a` and `b`.
pub open spec fn diff_count(a: Seq<Cell>, b: Seq<Cell>, k: int) -> nat
    decreases k,
{
    if k <= 0 {
        0
    } else {
        diff_count(a, b, k - 1) + if a[k - 1] != b[k - 1] {
            1nat
        } else {
            0nat
        }
    }
}

/// The commands that bring cell `k` of a frame `w` cells wide up to `c`,
/// the terminal's colors being `fg` and `bg`: a move of the cursor to the
/// cell, each color of `c` that the terminal does not have yet (background
/// first), and the character.
pub open spec fn cell_commands(w: int, k: int, c: Cell, fg: Color, bg: Color) -> Seq<TermCommand> {
    seq![TermCommand::MoveTo((k % w) as u16, (k / w) as u16)] + (if c.bg != bg {
        seq![TermCommand::SetBackgroundColor(c.bg)]
    } else {
        seq![]
    }) + (if c.fg != fg {
        seq![TermCommand::SetForegroundColor(c.fg)]
    } else {
        seq![]
    }) + seq![TermCommand::Print(c.ch)]
}

/// The commands for the first `k` cells, in order, that repaint those
/// where `next` differs from `cur`, starting from the default colors; with the
/// terminal's foreground and background after them.
pub open spec fn diff_commands(cur: Seq<Cell>, next: Seq<Cell>, w: int, k: int) -> (Seq<TermCommand>, Color, Color)
    decreases k,
{
    if k <= 0 {
        (seq![], Color::Reset, Color::Reset)
    } else {
        let before = diff_commands(cur, next, w, k - 1);
        if next[k - 1] != cur[k - 1] {
            (
                before.0 + cell_commands(w, k - 1, next[k - 1], before.1, before.2),
                next[k - 1].fg,
                next[k - 1].bg,
            )
        } else {
            before
        }
    }
}

/// What `flush` sends for buffer `v`: a color reset, then the commands that
/// repaint each changed cell, row by row, left to right.
pub open spec fn flush_commands(v: ScreenView) -> Seq<TermCommand> {
    seq![TermCommand::ResetColor] + diff_commands(v.current, v.next, v.width as int, v.current.len() as int).0
}

/// No command in `cmds` sets a color that the terminal has at that point.
pub open spec fn no_redundant_colors(t: Terminal, width: int, cmds: Seq<TermCommand>) -> bool {
    forall|j: int|
        0 <= j < cmds.len() ==> match #[trigger] cmds[j] {
            TermCommand::SetBackgroundColor(c) => replay(t, width, cmds.take(j)).bg != c,
            TermCommand::SetForegroundColor(c) => replay(t, width, cmds.take(j)).fg != c,
            _ => true,
        }
}

pub proof fn lemma_print_count_push(cmds: Seq<TermCommand>, c: TermCommand)
    ensures
        print_count(cmds.push(c)) == print_count(cmds) + if c is Print {
            1nat
        } else {
            0nat
        },
{
    assert(cmds.push(c).drop_last() =~= cmds);
}

pub proof fn lemma_no_redundant_push(t: Terminal, width: int, cmds: Seq<TermCommand>, c: TermCommand)
    requires
        no_redundant_colors(t, width, cmds),
        c matches TermCommand::SetBackgroundColor(b) ==> replay(t, width, cmds).bg != b,
        c matches TermCommand::SetForegroundColor(f) ==> replay(t, width, cmds).fg != f,
    ensures
        no_redundant_colors(t, width, cmds.push(c)),
{
    let n = cmds.push(c);
    assert forall|j: int| 0 <= j < n.len() implies match #[trigger] n[j] {
        TermCommand::SetBackgroundColor(c) => replay(t, width, n.take(j)).bg != c,
        TermCommand::SetForegroundColor(c) => replay(t, width, n.take(j)).fg != c,
        _ => true,
    } by {
        if j < cmds.len() {
            assert(n.take(j) =~= cmds.take(j));
            assert(n[j] == cmds[j]);
        } else {
            assert(n.take(j) =~= cmds);
        }
    }
}

/// The abstract state of a screen buffer: its size, the frame the terminal
/// shows (`current`) and the frame being drawn (`next`), both row by row.
pub struct ScreenView {
    pub width: u16,
    pub height: u16,
    pub current: Seq<Cell>,
    pub next: Seq<Cell>,
}

impl ScreenView {
    pub open spec fn wf(self) -> bool {
        &&& self.current.len() == self.width * self.height
        &&& self.next.len() == self.width * self.height
    }

    /// Whether `(x, y)` lies on the screen. The width and height are compared
    /// as `i16`, as the coordinates are.
    pub open spec fn in_bounds(self, x: i16, y: i16) -> bool {
        self.on_screen(x as int, y as int)
    }

    /// `in_bounds` for a position given as integers.
    pub open spec fn on_screen(self, x: int, y: int) -> bool {
        0 <= x && x < (self.width as i16) && 0 <= y && y < (self.height as i16)
    }

    /// The position of cell `(x, y)` in a frame.
    pub open spec fn index(self, x: int, y: int) -> int {
        cell_index(self.width as int, x, y)
    }

    /// The buffer after cell `(x, y)` of the next frame is set to `c`.
    pub open spec fn with_cell(self, x: i16, y: i16, c: Cell) -> ScreenView {
        if self.in_bounds(x, y) {
            ScreenView {
                width: self.width,
                height: self.height,
                current: self.current,
                next: self.next.update(self.index(x as int, y as int), c),
            }
        } else {
            self
        }
    }

    /// `out` is this buffer with the next frame blank: every cell a space in
    /// the default foreground, each row in one color, the sky darkened for
    /// that row by `shade`.
    pub open spec fn cleared_to<F: Fn(u16, u16, u8) -> u8>(self, out: ScreenView, shade: F) -> bool {
        &&& out.width == self.width
        &&& out.height == self.height
        &&& out.current == self.current
        &&& out.next.len() == self.next.len()
        &&& forall|x: int, y: int|
            0 <= x < self.width && 0 <= y < self.height ==> {
                let c = #[trigger] out.next[cell_index(self.width as int, x, y)];
                &&& c.ch == ' '
                &&& c.fg == Color::Reset
                &&& shaded_sky(shade, y as u16, self.height, c.bg)
                &&& c == out.next[cell_index(self.width as int, 0, y)]
            }
    }

    /// The buffer once the terminal shows the frame that was drawn.
    pub open spec fn flushed(self) -> ScreenView {
        ScreenView { width: self.width, height: self.height, current: self.next, next: self.next }
    }

    /// The terminal already shows the frame being drawn.
    pub open spec fn settled(self) -> bool {
        self.current == self.next
    }

    /// The background color at `(x, y)` of the next frame, the sky off screen.
    pub open spec fn bg_at(self, x: i16, y: i16) -> Color {
        if self.in_bounds(x, y) {
            self.next[self.index(x as int, y as int)].bg
        } else {
            sky()
        }
    }
}

/// Positions `x < width`, `y < height` lie in a frame, and tell apart different cells.
pub proof fn lemma_index(w: int, h: int, x: int, y: int)
    requires
        0 <= x < w,
        0 <= y < h,
    ensures
        0 <= y * w + x < w * h,
        y * w + x + 1 <= w * h,
{
    assert(y * w + x < w * h) by (nonlinear_arith)
        requires
            0 <= x < w,
            0 <= y < h,
    ;
    assert(0 <= y * w) by (nonlinear_arith)
        requires
            0 <= y,
            0 <= w,
    ;
}

pub proof fn lemma_index_injective(w: int, x1: int, y1: int, x2: int, y2: int)
    requires
        0 <= x1 < w,
        0 <= x2 < w,
        0 <= y1,
        0 <= y2,
        y1 * w + x1 == y2 * w + x2,
    ensures
        x1 == x2,
        y1 == y2,
{
    if y1 < y2 {
        assert((y1 + 1) * w <= y2 * w) by (nonlinear_arith)
            requires
                y1 + 1 <= y2,
                0 <= w,
        ;
        assert(y1 * w + w == (y1 + 1) * w) by (nonlinear_arith);
    } else if y2 < y1 {
        assert((y2 + 1) * w <= y1 * w) by (nonlinear_arith)
            requires
                y2 + 1 <= y1,
                0 <= w,
        ;
        assert(y2 * w + w == (y2 + 1) * w) by (nonlinear_arith);
    }
}

/// A position on the screen, compared as `i16`, lies below the width and height.
pub proof fn lemma_in_bounds(v: ScreenView, x: i16, y: i16)
    requires
        v.in_bounds(x, y),
    ensures
        0 <= x < v.width,
        0 <= y < v.height,
{
    let w = v.width;
    let h = v.height;
    assert(x < (w as i16) ==> x < w) by (bit_vector)
        requires 0 <= x;
    assert(y < (h as i16) ==> y < h) by (bit_vector)
        requires 0 <= y;
}

/// A position on the screen, as integers, lies below the width and height.
pub proof fn lemma_on_screen(v: ScreenView, x: int, y: int)
    requires
        v.on_screen(x, y),
    ensures
        0 <= x < v.width,
        0 <= y < v.height,
{
    lemma_as_i16(v.width);
    lemma_as_i16(v.height);
}

/// A `u16` read as `i16` is itself up to `i16::MAX`, and negative above.
pub proof fn lemma_as_i16(w: u16)
    ensures
        w <= 32767 ==> (w as i16) == w,
        w > 32767 ==> (w as i16) < 0,
{
    assert(w <= 32767 ==> (w as i16) == w) by (bit_vector);
    assert(w > 32767 ==> (w as i16) < 0) by (bit_vector);
}

/// Setting a cell keeps the buffer's size and the frame the terminal shows.
pub proof fn lemma_with_cell_shape(v: ScreenView, x: i16, y: i16, c: Cell)
    requires
        v.wf(),
    ensures
        v.with_cell(x, y, c).wf(),
        v.with_cell(x, y, c).width == v.width,
        v.with_cell(x, y, c).height == v.height,
        v.with_cell(x, y, c).current == v.current,
{
    if v.in_bounds(x, y) {
        lemma_in_bounds(v, x, y);
        lemma_index(v.width as int, v.height as int, x as int, y as int);
    }
}

/// Setting a cell changes that cell of the next frame, if it is on the
/// screen, and no other.
pub proof fn lemma_with_cell_at(v: ScreenView, x: i16, y: i16, c: Cell, x2: int, y2: int)
    requires
        v.wf(),
        0 <= x2 < v.width,
        0 <= y2 < v.height,
    ensures
        v.with_cell(x, y, c).wf(),
        v.with_cell(x, y, c).width == v.width,
        v.with_cell(x, y, c).height == v.height,
        v.with_cell(x, y, c).current == v.current,
        v.with_cell(x, y, c).next[v.index(x2, y2)] == if v.in_bounds(x, y) && x == x2 && y == y2 {
            c
        } else {
            v.next[v.index(x2, y2)]
        },
{
    lemma_index(v.width as int, v.height as int, x2, y2);
    if v.in_bounds(x, y) {
        lemma_in_bounds(v, x, y);
        lemma_index(v.width as int, v.height as int, x as int, y as int);
        if v.index(x as int, y as int) == v.index(x2, y2) {
            lemma_index_injective(v.width as int, x as int, y as int, x2, y2);
        }
    }
}

/// Reading back a background: right after cell `(x, y)` is set, its
/// background is the one that was set; off the screen it is the sky.
pub proof fn lemma_bg_after_set(v: ScreenView, x: i16, y: i16, c: Cell)
    requires
        v.wf(),
    ensures
        v.with_cell(x, y, c).bg_at(x, y) == if v.in_bounds(x, y) {
            c.bg
        } else {
            sky()
        },
{
    if v.in_bounds(x, y) {
        lemma_in_bounds(v, x, y);
        lemma_with_cell_at(v, x, y, c, x as int, y as int);
    }
}

/// Setting one cell leaves the background of every other position as it was.
pub proof fn lemma_set_keeps_others(v: ScreenView, x: i16, y: i16, c: Cell, x2: i16, y2: i16)
    requires
        v.wf(),
        x != x2 || y != y2,
    ensures
        v.with_cell(x, y, c).bg_at(x2, y2) == v.bg_at(x2, y2),
{
    lemma_with_cell_shape(v, x, y, c);
    if v.in_bounds(x2, y2) {
        lemma_in_bounds(v, x2, y2);
        lemma_with_cell_at(v, x, y, c, x2 as int, y2 as int);
    }
}

/// Once flushed, the terminal shows the drawn frame, so flushing again
/// before anything is drawn sends nothing but the color reset.
pub proof fn lemma_flush_settles(v: ScreenView)
    requires
        v.wf(),
    ensures
        v.flushed().wf(),
        v.flushed().settled(),
        v.flushed().flushed() == v.flushed(),
{
}

/// A double-buffered terminal screen: `next` is drawn into during a frame,
/// `current` is what the terminal shows, and `flush` sends the difference.
pub struct ScreenBuffer {
    width: u16,
    height: u16,
    current: Vec<Cell>,
    next: Vec<Cell>,
}

impl View for ScreenBuffer {
    type V = ScreenView;

    closed spec fn view(&self) -> ScreenView {
        ScreenView { width: self.width, height: self.height, current: self.current@, next: self.next@ }
    }
}

impl ScreenBuffer {
    pub open spec fn wf(&self) -> bool {
        self@.wf()
    }

    /// A buffer of `width` by `height` blank cells, in both frames.
    pub fn new(width: u16, height: u16) -> (b: Self)
        ensures
            b.wf(),
            b@.width == width,
            b@.height == height,
            forall|i: int| 0 <= i < width * height ==> b@.current[i] == blank_cell(),
            forall|i: int| 0 <= i < width * height ==> b@.next[i] == blank_cell(),
    {
        assert((width as int) * (height as int) <= 0xffff * 0xffff) by (nonlinear_arith)
            requires
                width <= 0xffff,
                height <= 0xffff,
        ;
        let size = (width as usize) * (height as usize);
        let current = vec![Cell::default(); size];
        let next = vec![Cell::default(); size];
        ScreenBuffer { width, height, current, next }
    }

    /// The background color at `(x, y)` of the frame being drawn; the sky
    /// color for a position off the screen.
    pub fn get_bg_color_at(&self, x: i16, y: i16) -> (c: Color)
        requires
            self.wf(),
        ensures
            c == self@.bg_at(x, y),
    {
        if x >= 0 && x < #[verifier::truncate] (self.width as i16) && y >= 0 && y < #[verifier::truncate] (self.height as i16) {
            proof {
                lemma_in_bounds(self@, x, y);
                lemma_index(self.width as int, self.height as int, x as int, y as int);
                assert(self.next@.len() == self.next.len());
            }
            let idx = (y as usize) * (self.width as usize) + (x as usize);
            self.next[idx].bg
        } else {
            sky_color()
        }
    }

    /// Sets cell `(x, y)` of the frame being drawn; a position off the screen
    /// is ignored.
    pub fn set(&mut self, x: i16, y: i16, ch: char, fg: Color, bg: Color)
        requires
            old(self).wf(),
        ensures
            final(self)@ == old(self)@.with_cell(x, y, Cell { ch, fg, bg }),
            final(self).wf(),
    {
        if x >= 0 && x < #[verifier::truncate] (self.width as i16) && y >= 0 && y < #[verifier::truncate] (self.height as i16) {
            proof {
                lemma_in_bounds(self@, x, y);
                lemma_index(self.width as int, self.height as int, x as int, y as int);
                assert(self.next@.len() == self.next.len());
            }
            let idx = (y as usize) * (self.width as usize) + (x as usize);
            self.next[idx] = Cell { ch, fg, bg };
        }
    }

    /// Paints the frame being drawn with blank sky: every cell becomes a
    /// space, and each row takes the sky color darkened by `shade` for that
    /// row, so that the sky grows darker towards the bottom.
    pub fn clear_next<F: Fn(u16, u16, u8) -> u8>(&mut self, shade: &F)
        requires
            old(self).wf(),
            forall|y: u16, h: u16, c: u8| shade.requires((y, h, c)),
        ensures
            final(self).wf(),
            old(self)@.cleared_to(final(self)@, *shade),
    {
        let w = self.width;
        let h = self.height;
        let ghost wi = w as int;
        let mut y: u16 = 0;
        while y < h
            invariant
                self.wf(),
                self.width == w,
                self.height == h,
                wi == w as int,
                self.current@ == old(self).current@,
                forall|y: u16, h: u16, c: u8| shade.requires((y, h, c)),
                0 <= y <= h,
                forall|x: int, yy: int|
                    0 <= x < w && 0 <= yy < y ==> {
                        let c = #[trigger] self.next@[cell_index(wi, x, yy)];
                        &&& c.ch == ' '
                        &&& c.fg == Color::Reset
                        &&& shaded_sky(*shade, yy as u16, h, c.bg)
                        &&& c == self.next@[cell_index(wi, 0, yy)]
                    },
            decreases h - y,
        {
            let row_scale = |c: u8| -> (r: u8)
                requires
                    shade.requires((y, h, c)),
                ensures
                    shade.ensures((y, h, c), r),
                { shade(y, h, c) };
            let row_bg = darken_color(sky_color(), Darkening::Partial, &row_scale);
            let ghost row_cell = Cell { ch: ' ', fg: Color::Reset, bg: row_bg };
            assert(shaded_sky(*shade, y, h, row_bg));
            let mut x: u16 = 0;
            while x < w
                invariant
                    self.wf(),
                    self.width == w,
                    self.height == h,
                    wi == w as int,
                    self.current@ == old(self).current@,
                    0 <= y < h,
                    0 <= x <= w,
                    row_cell == (Cell { ch: ' ', fg: Color::Reset, bg: row_bg }),
                    shaded_sky(*shade, y, h, row_bg),
                    forall|xx: int| 0 <= xx < x ==> #[trigger] self.next@[cell_index(wi, xx, y as int)] == row_cell,
                    forall|xx: int, yy: int|
                        0 <= xx < w && 0 <= yy < y ==> {
                            let c = #[trigger] self.next@[cell_index(wi, xx, yy)];
                            &&& c.ch == ' '
                            &&& c.fg == Color::Reset
                            &&& shaded_sky(*shade, yy as u16, h, c.bg)
                            &&& c == self.next@[cell_index(wi, 0, yy)]
                        },
                decreases w - x,
            {
                let ghost before = self.next@;
                let ghost k = cell_index(wi, x as int, y as int);
                proof {
                    lemma_index(wi, h as int, x as int, y as int);
                    assert(self.next@.len() == self.next.len());
                }
                let idx = (y as usize) * (w as usize) + (x as usize);
                self.next[idx] = Cell { ch: ' ', fg: Color::Reset, bg: row_bg };
                proof {
                    assert forall|xx: int| 0 <= xx < x + 1 implies #[trigger] self.next@[cell_index(wi, xx, y as int)] == row_cell by {
                        if xx != x {
                            if cell_index(wi, xx, y as int) == k {
                                lemma_index_injective(wi, xx, y as int, x as int, y as int);
                            }
                        }
                    }
                    assert forall|xx: int, yy: int| 0 <= xx < w && 0 <= yy < y implies
                        #[trigger] self.next@[cell_index(wi, xx, yy)] == before[cell_index(wi, xx, yy)] by {
                        if cell_index(wi, xx, yy) == k {
                            lemma_index_injective(wi, xx, yy, x as int, y as int);
                        }
                        lemma_index(wi, h as int, xx, yy);
                    }
                    assert forall|yy: int| 0 <= yy < y implies
                        #[trigger] self.next@[cell_index(wi, 0, yy)] == before[cell_index(wi, 0, yy)] by {
                        if cell_index(wi, 0, yy) == k {
                            lemma_index_injective(wi, 0, yy, x as int, y as int);
                        }
                        lemma_index(wi, h as int, 0, yy);
                    }
                }
                x = x + 1;
            }
            proof {
                assert forall|xx: int, yy: int| 0 <= xx < w && 0 <= yy < y + 1 implies {
                    let c = #[trigger] self.next@[cell_index(wi, xx, yy)];
                    &&& c.ch == ' '
                    &&& c.fg == Color::Reset
                    &&& shaded_sky(*shade, yy as u16, h, c.bg)
                    &&& c == self.next@[cell_index(wi, 0, yy)]
                } by {
                    if yy == y {
                        assert(self.next@[cell_index(wi, 0, y as int)] == row_cell);
                    }
                }
            }
            y = y + 1;
        }
    }

    /// Brings the terminal up to the frame that was drawn. Returns the
    /// commands to send: a color reset, then, for each cell that differs from
    /// what the terminal shows, row by row, a cursor move, the colors that
    /// changed since the last cell sent, and the character. The shown frame
    /// becomes the drawn one.
    #[verifier::rlimit(40)]
    pub fn flush(&mut self) -> (cmds: Vec<TermCommand>)
        requires
            old(self).wf(),
        ensures
            final(self).wf(),
            final(self)@ == old(self)@.flushed(),
            cmds@.len() >= 1,
            cmds@[0] == TermCommand::ResetColor,
            forall|t: Terminal|
                t.cells == old(self)@.current ==> #[trigger] replay(t, old(self)@.width as int, cmds@).cells
                    == old(self)@.next,
            old(self)@.settled() ==> cmds@ == seq![TermCommand::ResetColor],
            cmds@ == flush_commands(old(self)@),
            print_count(cmds@) == diff_count(old(self)@.current, old(self)@.next, old(self)@.current.len() as int),
            forall|t: Terminal|
                t.cells == old(self)@.current ==> #[trigger] no_redundant_colors(t, old(self)@.width as int, cmds@),
    {
        let w = self.width;
        let h = self.height;
        let ghost wi = w as int;
        let ghost start = self.current@;
        let mut cmds: Vec<TermCommand> = Vec::new();
        let mut last_bg = Color::Reset;
        let mut last_fg = Color::Reset;
        cmds.push(TermCommand::ResetColor);
        proof {
            assert forall|t: Terminal| t.cells == start implies {
                let r = #[trigger] replay(t, wi, cmds@);
                r.cells == start && r.fg == Color::Reset && r.bg == Color::Reset
            } by {
                lemma_replay_push(t, wi, Seq::empty(), TermCommand::ResetColor);
                assert(Seq::<TermCommand>::empty().push(TermCommand::ResetColor) =~= cmds@);
            }
            lemma_print_count_push(Seq::empty(), TermCommand::ResetColor);
            assert(Seq::<TermCommand>::empty().push(TermCommand::ResetColor) =~= cmds@);
            assert forall|t: Terminal| t.cells == start implies #[trigger] no_redundant_colors(t, wi, cmds@) by {
                lemma_no_redundant_push(t, wi, Seq::empty(), TermCommand::ResetColor);
            }
            assert(cell_index(wi, 0, 0) == 0);
            assert(cmds@ =~= seq![TermCommand::ResetColor] + diff_commands(start, self.next@, wi, 0).0);
        }
        let mut y: u16 = 0;
        while y < h
            invariant
                self.wf(),
                self.width == w,
                self.height == h,
                wi == w as int,
                self.next@ == old(self).next@,
                start == old(self).current@,
                0 <= y <= h,
                forall|i: int| 0 <= i < cell_index(wi, 0, y as int) ==> self.current@[i] == self.next@[i],
                forall|i: int| cell_index(wi, 0, y as int) <= i < self.current@.len() ==> self.current@[i] == start[i],
                cmds@.len() >= 1,
                cmds@[0] == TermCommand::ResetColor,
                forall|t: Terminal| t.cells == start ==> {
                    let r = #[trigger] replay(t, wi, cmds@);
                    r.cells == self.current@ && r.fg == last_fg && r.bg == last_bg
                },
                start == self.next@ ==> cmds@ == seq![TermCommand::ResetColor],
                print_count(cmds@) == diff_count(start, self.next@, cell_index(wi, 0, y as int)),
                forall|t: Terminal| t.cells == start ==> #[trigger] no_redundant_colors(t, wi, cmds@),
                cmds@ == seq![TermCommand::ResetColor] + diff_commands(start, self.next@, wi, cell_index(wi, 0, y as int)).0,
                last_fg == diff_commands(start, self.next@, wi, cell_index(wi, 0, y as int)).1,
                last_bg == diff_commands(start, self.next@, wi, cell_index(wi, 0, y as int)).2,
            decreases h - y,
        {
            let mut x: u16 = 0;
            while x < w
                invariant
                    self.wf(),
                    self.width == w,
                    self.height == h,
                    wi == w as int,
                    self.next@ == old(self).next@,
                    start == old(self).current@,
                    0 <= y < h,
                    0 <= x <= w,
                    forall|i: int| 0 <= i < cell_index(wi, x as int, y as int) ==> self.current@[i] == self.next@[i],
                    forall|i: int| cell_index(wi, x as int, y as int) <= i < self.current@.len() ==> self.current@[i] == start[i],
                    cmds@.len() >= 1,
                    cmds@[0] == TermCommand::ResetColor,
                    forall|t: Terminal| t.cells == start ==> {
                        let r = #[trigger] replay(t, wi, cmds@);
                        r.cells == self.current@ && r.fg == last_fg && r.bg == last_bg
                    },
                    start == self.next@ ==> cmds@ == seq![TermCommand::ResetColor],
                    print_count(cmds@) == diff_count(start, self.next@, cell_index(wi, x as int, y as int)),
                    forall|t: Terminal| t.cells == start ==> #[trigger] no_redundant_colors(t, wi, cmds@),
                    cmds@ == seq![TermCommand::ResetColor] + diff_commands(start, self.next@, wi, cell_index(wi, x as int, y as int)).0,
                    last_fg == diff_commands(start, self.next@, wi, cell_index(wi, x as int, y as int)).1,
                    last_bg == diff_commands(start, self.next@, wi, cell_index(wi, x as int, y as int)).2,
                decreases w - x,
            {
                proof {
                    lemma_index(wi, h as int, x as int, y as int);
                    assert(self.next@.len() == self.next.len());
                }
                let idx = (y as usize) * (w as usize) + (x as usize);
                let next_cell = self.next[idx];
                let current_cell = self.current[idx];
                if next_cell != current_cell {
                    let ghost cmds0 = cmds@;
                    let ghost cur0 = self.current@;
                    let ghost fg0 = last_fg;
                    let ghost bg0 = last_bg;
                    cmds.push(TermCommand::MoveTo(x, y));
                    let ghost cmds1 = cmds@;
                    if next_cell.bg != last_bg {
                        cmds.push(TermCommand::SetBackgroundColor(next_cell.bg));
                        last_bg = next_cell.bg;
                    }
                    let ghost cmds2 = cmds@;
                    if next_cell.fg != last_fg {
                        cmds.push(TermCommand::SetForegroundColor(next_cell.fg));
                        last_fg = next_cell.fg;
                    }
                    let ghost cmds3 = cmds@;
                    cmds.push(TermCommand::Print(next_cell.ch));
                    self.current[idx] = next_cell;
                    proof {
                        assert forall|t: Terminal| t.cells == start implies {
                            let r = #[trigger] replay(t, wi, cmds@);
                            r.cells == self.current@ && r.fg == last_fg && r.bg == last_bg
                        } by {
                            let r0 = replay(t, wi, cmds0);
                            lemma_replay_push(t, wi, cmds0, TermCommand::MoveTo(x, y));
                            let r1 = replay(t, wi, cmds1);
                            assert(r1.cells == cur0 && r1.col == x && r1.row == y && r1.fg == fg0 && r1.bg == bg0);
                            if cmds2 != cmds1 {
                                lemma_replay_push(t, wi, cmds1, TermCommand::SetBackgroundColor(next_cell.bg));
                            }
                            let r2 = replay(t, wi, cmds2);
                            assert(r2.cells == cur0 && r2.col == x && r2.row == y && r2.bg == next_cell.bg && r2.fg == fg0);
                            if cmds3 != cmds2 {
                                lemma_replay_push(t, wi, cmds2, TermCommand::SetForegroundColor(next_cell.fg));
                            }
                            let r3 = replay(t, wi, cmds3);
                            assert(r3.cells == cur0 && r3.col == x && r3.row == y && r3.bg == next_cell.bg && r3.fg == next_cell.fg);
                            lemma_replay_push(t, wi, cmds3, TermCommand::Print(next_cell.ch));
                            assert(replay(t, wi, cmds@).cells =~= self.current@);
                        }
                        assert(start[idx as int] != self.next@[idx as int]);
                        lemma_print_count_push(cmds0, TermCommand::MoveTo(x, y));
                        if cmds2 != cmds1 {
                            lemma_print_count_push(cmds1, TermCommand::SetBackgroundColor(next_cell.bg));
                        }
                        if cmds3 != cmds2 {
                            lemma_print_count_push(cmds2, TermCommand::SetForegroundColor(next_cell.fg));
                        }
                        lemma_print_count_push(cmds3, TermCommand::Print(next_cell.ch));
                        vstd::arithmetic::div_mod::lemma_fundamental_div_mod_converse(idx as int, wi, y as int, x as int);
                        assert(cmds@ =~= cmds0 + cell_commands(wi, idx as int, next_cell, fg0, bg0));
                        assert forall|t: Terminal| t.cells == start implies #[trigger] no_redundant_colors(t, wi, cmds@) by {
                            lemma_replay_push(t, wi, cmds0, TermCommand::MoveTo(x, y));
                            lemma_no_redundant_push(t, wi, cmds0, TermCommand::MoveTo(x, y));
                            if cmds2 != cmds1 {
                                lemma_replay_push(t, wi, cmds1, TermCommand::SetBackgroundColor(next_cell.bg));
                                lemma_no_redundant_push(t, wi, cmds1, TermCommand::SetBackgroundColor(next_cell.bg));
                            }
                            if cmds3 != cmds2 {
                                lemma_replay_push(t, wi, cmds2, TermCommand::SetForegroundColor(next_cell.fg));
                                lemma_no_redundant_push(t, wi, cmds2, TermCommand::SetForegroundColor(next_cell.fg));
                            }
                            lemma_no_redundant_push(t, wi, cmds3, TermCommand::Print(next_cell.ch));
                        }
                    }
                }
                proof {
                    assert(cell_index(wi, x as int + 1, y as int) == idx + 1);
                    assert(start[idx as int] == current_cell);
                    assert(cmds@ =~= seq![TermCommand::ResetColor] + diff_commands(start, self.next@, wi, idx + 1).0);
                }
                x = x + 1;
            }
            proof {
                assert(cell_index(wi, w as int, y as int) == cell_index(wi, 0, y as int + 1)) by (nonlinear_arith)
                    requires wi == w as int;
            }
            y = y + 1;
        }
        proof {
            assert(cell_index(wi, 0, h as int) == self.current@.len()) by (nonlinear_arith)
                requires self.current@.len() == wi * (h as int);
            assert(self.current@ =~= self.next@);
        }
        cmds
    }
}

} // verus!
