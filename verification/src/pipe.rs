use vstd::prelude::*;

use rand::rngs::ThreadRng;
use rand::Rng;

use crate::color::{darken_color, darkened, Color, Darkening};
use crate::cell::Cell;
use crate::screen_buffer::{lemma_with_cell_at, ScreenBuffer, ScreenView};

verus! {

/// A pipe is this percentage of the screen's width wide (at least 3 columns).
pub const PIPE_WIDTH_PERCENT: i16 = 4;

/// The gap in a pipe is this percentage of the screen's height (at least 6 rows).
pub const GAP_HEIGHT_PERCENT: i16 = 30;

/// Pipes follow each other at this percentage of the screen's width (at least 10 columns).
pub const PIPE_GAP_PERCENT: i16 = 25;

/// The color of a pipe's leftmost column; each column to the right is darker.
pub open spec fn pipe_leftmost() -> Color {
    Color::Rgb { r: 158, g: 227, b: 85 }
}

/// `pipe_leftmost`, in executable code.
pub fn pipe_color_leftmost() -> (c: Color)
    ensures
        c == pipe_leftmost(),
{
    Color::Rgb { r: 158, g: 227, b: 85 }
}

/// `a / b` rounded towards zero, as Rust's integer division does.
pub open spec fn trunc_div(a: int, b: int) -> int {
    if a >= 0 {
        a / b
    } else {
        -((-a) / b)
    }
}

pub open spec fn max(a: int, b: int) -> int {
    if a >= b {
        a
    } else {
        b
    }
}

/// The width of a pipe on a screen `cols` wide.
pub open spec fn pipe_width(cols: int) -> int {
    max(trunc_div(cols * PIPE_WIDTH_PERCENT, 100), 3)
}

/// The height of a pipe's gap on a screen `rows` tall.
pub open spec fn gap_height_for(rows: int) -> int {
    max(trunc_div(rows * GAP_HEIGHT_PERCENT, 100), 6)
}

/// The distance between pipes on a screen `cols` wide.
pub open spec fn pipe_gap_for(cols: int) -> int {
    max(trunc_div(cols * PIPE_GAP_PERCENT, 100), 10)
}

/// The middle row of the gap on a screen `rows` tall when the random draw
/// gives `drawn`: the draw when the screen is tall enough for the gap to be
/// placed at random, the screen's middle row otherwise.
pub open spec fn gap_middle_for(rows: int, drawn: int) -> int {
    let gh = gap_height_for(rows);
    if gh >= rows - gh {
        trunc_div(rows, 2)
    } else {
        drawn
    }
}

/// `drawn` lies in the range the gap's middle is drawn from, when there is one.
pub open spec fn gap_draw_ok(rows: int, drawn: int) -> bool {
    let gh = gap_height_for(rows);
    gh < rows - gh ==> gh <= drawn < rows - gh
}

/// The screen sizes whose pipe dimensions fit in `i16`.
pub open spec fn screen_fits(cols: int, rows: int) -> bool {
    &&& -1310 <= cols <= 1310
    &&& -1092 <= rows <= 1092
}

/// The thread-local random number generator of `rand`.
#[verifier::external_type_specification]
#[verifier::external_body]
pub struct ExThreadRng(ThreadRng);

/// Calls `rand::rng`, which hands out the thread's generator. Nothing is
/// stated of it: it is only passed on to `random_between`.
#[verifier::external_body]
fn thread_rng() -> ThreadRng {
    rand::rng()
}

/// Calls `Rng::random_range` on `low..high`. Its documentation promises a
/// value of the range, and it panics on an empty range, which `requires`
/// leaves out; which value comes is chance.
#[verifier::external_body]
fn random_between(rng: &mut ThreadRng, low: i16, high: i16) -> (r: i16)
    requires
        low < high,
    ensures
        low <= r < high,
{
    rng.random_range(low..high)
}

/// A pipe: a column of cells `width` wide over the whole height of the
/// screen, with an open gap around `gap_middle`. Its horizontal position is
/// kept in the caller's representation `P` (`x`), with `x_int` the column it
/// is drawn at.
pub struct Pipe<P> {
    pub x: P,
    pub x_int: i16,
    pub gap_middle: i16,
    pub screen_cols: i16,
    pub screen_rows: i16,
    pub scored: bool,
    pub width: i16,
    pub gap_height: i16,
    pub pipe_gap: i16,
    pub cached_colors: Vec<Color>,
}

impl<P: Copy> Pipe<P> {
    /// This pipe, marked as flown past.
    pub open spec fn marked_scored(&self) -> Pipe<P> {
        Pipe {
            x: self.x,
            x_int: self.x_int,
            gap_middle: self.gap_middle,
            screen_cols: self.screen_cols,
            screen_rows: self.screen_rows,
            scored: true,
            width: self.width,
            gap_height: self.gap_height,
            pipe_gap: self.pipe_gap,
            cached_colors: self.cached_colors,
        }
    }

    /// The top row of the gap.
    pub open spec fn gap_top(&self) -> int {
        self.gap_middle - self.gap_height / 2
    }

    /// The row below the gap.
    pub open spec fn gap_bottom(&self) -> int {
        self.gap_middle + self.gap_height / 2
    }

    /// The gap's middle row lies where `new` may place it.
    pub open spec fn gap_placed(&self) -> bool {
        let rows = self.screen_rows as int;
        let gh = self.gap_height as int;
        if gh >= rows - gh {
            self.gap_middle == trunc_div(rows, 2)
        } else {
            gh <= self.gap_middle < rows - gh
        }
    }

    /// A pipe as `new` makes it: its dimensions follow from the screen's, the
    /// gap lies inside the screen, and its columns darken from left to right.
    pub open spec fn wf(&self) -> bool {
        &&& screen_fits(self.screen_cols as int, self.screen_rows as int)
        &&& self.width == pipe_width(self.screen_cols as int)
        &&& self.gap_height == gap_height_for(self.screen_rows as int)
        &&& self.pipe_gap == pipe_gap_for(self.screen_cols as int)
        &&& self.gap_placed()
        &&& self.cached_colors@.len() == self.width
        &&& self.cached_colors@[0] == pipe_leftmost()
    }

    /// The columns darken left to right, each partially darkened by `scale`
    /// from the one before.
    pub open spec fn shaded_by<F: Fn(u8) -> u8>(&self, scale: F) -> bool {
        forall|i: int| 0 <= i < self.width - 1 ==> darkened(#[trigger] self.cached_colors@[i], Darkening::Partial, scale, self.cached_colors@[i + 1])
    }

    /// Whether an observer at `(x, y)` would hit this pipe: it is within the
    /// pipe's columns (the right edge included) and not strictly inside the gap.
    pub open spec fn blocks(&self, x: int, y: int) -> bool {
        &&& self.x_int <= x <= self.x_int + self.width
        &&& (y <= self.gap_top() || y >= self.gap_bottom())
    }

    /// Whether drawing the pipe paints cell `(x, y)`: a visible column of the
    /// pipe, on a row of the screen outside the gap.
    pub open spec fn paints(&self, x: int, y: int) -> bool {
        &&& self.x_int + self.width >= 0
        &&& 0 <= y < self.screen_rows
        &&& !(self.gap_top() <= y < self.gap_bottom())
        &&& self.x_int <= x < self.x_int + self.width
        &&& 0 <= x < self.screen_cols
    }

    /// Cell `(x, y)` of the next frame of `v` once the pipe has been drawn on it.
    pub open spec fn drawn_cell(&self, v: ScreenView, x: int, y: int) -> Cell {
        if self.paints(x, y) && v.on_screen(x, y) {
            let c = self.cached_colors@[x - self.x_int];
            Cell { ch: '\u{2588}', fg: c, bg: c }
        } else {
            v.next[v.index(x, y)]
        }
    }

    /// A pipe at column `x_int` for a screen `screen_cols` by `screen_rows`.
    /// Its width, gap height and distance to the next pipe follow from the
    /// screen; the gap's middle is drawn at random so that the whole gap fits
    /// on the screen (the middle row when it cannot); the columns start at
    /// the leftmost color and each is `scale`d from the one before. `place`
    /// gives the position of column `x_int` in the caller's representation.
    pub fn new<G: Fn(i16) -> P, F: Fn(u8) -> u8>(
        x_int: i16,
        screen_cols: i16,
        screen_rows: i16,
        place: &G,
        scale: &F,
    ) -> (p: Self)
        requires
            screen_fits(screen_cols as int, screen_rows as int),
            place.requires((x_int,)),
            forall|c: u8| scale.requires((c,)),
        ensures
            p.wf(),
            p.shaded_by(*scale),
            p.x_int == x_int,
            p.screen_cols == screen_cols,
            p.screen_rows == screen_rows,
            !p.scored,
            place.ensures((x_int,), p.x),
    {
        let mut rng = thread_rng();

        let (min_gap_y, max_gap_y) = gap_draw_range(screen_rows);
        let drawn_middle = if min_gap_y >= max_gap_y {
            screen_rows / 2
        } else {
            random_between(&mut rng, min_gap_y, max_gap_y)
        };
        Self::with_gap(x_int, screen_cols, screen_rows, drawn_middle, place, scale)
    }

    /// The pipe that `new` makes when the random draw for the gap's middle
    /// gives `drawn_middle`: the gap is centred on `drawn_middle` when the
    /// screen is tall enough for the gap to be drawn at random, and on the
    /// screen's middle row otherwise. The draw is expected to lie in
    /// `[gap_height, screen_rows - gap_height)`; then the pipe is well formed.
    pub fn with_gap<G: Fn(i16) -> P, F: Fn(u8) -> u8>(
        x_int: i16,
        screen_cols: i16,
        screen_rows: i16,
        drawn_middle: i16,
        place: &G,
        scale: &F,
    ) -> (p: Self)
        requires
            screen_fits(screen_cols as int, screen_rows as int),
            place.requires((x_int,)),
            forall|c: u8| scale.requires((c,)),
        ensures
            p.width == pipe_width(screen_cols as int),
            p.gap_height == gap_height_for(screen_rows as int),
            p.pipe_gap == pipe_gap_for(screen_cols as int),
            p.gap_middle == gap_middle_for(screen_rows as int, drawn_middle as int),
            p.cached_colors@.len() == p.width,
            p.cached_colors@[0] == pipe_leftmost(),
            p.shaded_by(*scale),
            p.x_int == x_int,
            p.screen_cols == screen_cols,
            p.screen_rows == screen_rows,
            !p.scored,
            place.ensures((x_int,), p.x),
            gap_draw_ok(screen_rows as int, drawn_middle as int) ==> p.wf(),
    {
        let width = max_i16(screen_cols * PIPE_WIDTH_PERCENT / 100, 3);
        let gap_height = max_i16(screen_rows * GAP_HEIGHT_PERCENT / 100, 6);
        let pipe_gap = max_i16(screen_cols * PIPE_GAP_PERCENT / 100, 10);

        let min_gap_y = gap_height;
        let max_gap_y = screen_rows - gap_height;
        let gap_middle = if min_gap_y >= max_gap_y {
            screen_rows / 2
        } else {
            drawn_middle
        };

        let x = place(x_int);

        let mut cached_colors = vec![pipe_color_leftmost(); width as usize];
        let mut current_color = pipe_color_leftmost();
        let n = width as usize;
        let mut x_offset: usize = 0;
        while x_offset < n
            invariant
                n == width,
                cached_colors@.len() == n,
                0 <= x_offset <= n,
                forall|c: u8| scale.requires((c,)),
                x_offset == 0 ==> current_color == pipe_leftmost(),
                x_offset > 0 ==> cached_colors@[0] == pipe_leftmost(),
                x_offset > 0 ==> darkened(cached_colors@[x_offset - 1], Darkening::Partial, *scale, current_color),
                forall|i: int| 0 <= i < x_offset - 1 ==> darkened(#[trigger] cached_colors@[i], Darkening::Partial, *scale, cached_colors@[i + 1]),
            decreases n - x_offset,
        {
            cached_colors[x_offset] = current_color;
            current_color = darken_color(current_color, Darkening::Partial, scale);
            x_offset = x_offset + 1;
        }

        Self {
            x,
            x_int,
            gap_middle,
            screen_cols,
            screen_rows,
            scored: false,
            width,
            gap_height,
            pipe_gap,
            cached_colors,
        }
    }

    /// Whether the pipe has moved entirely past the left edge.
    pub fn is_off_screen(&self) -> (r: bool)
        requires
            i16::MIN <= self.x_int + self.width <= i16::MAX,
        ensures
            r == (self.x_int + self.width < 0),
    {
        self.x_int + self.width < 0
    }

    /// Whether the pipe has moved far enough left for the next one to enter.
    pub fn should_spawn_next(&self) -> (r: bool)
        requires
            i16::MIN <= self.x_int + self.width <= i16::MAX,
            i16::MIN <= self.x_int + self.width + self.gap_height <= i16::MAX,
        ensures
            r == (self.x_int + self.width + self.gap_height < self.screen_cols),
    {
        self.x_int + self.width + self.gap_height < self.screen_cols
    }

    /// Whether an observer at `(obs_x, obs_y)` hits this pipe.
    pub fn check_collission(&self, obs_x: i16, obs_y: i16) -> (r: bool)
        requires
            self.wf(),
            self.x_int + self.width <= i16::MAX,
        ensures
            r == self.blocks(obs_x as int, obs_y as int),
    {
        obs_x >= self.x_int && obs_x <= self.x_int + self.width && (obs_y <= self.gap_middle
            - self.gap_height / 2 || obs_y >= self.gap_middle + self.gap_height / 2)
    }

    /// Moves the pipe: `step` takes its position and the screen's width and
    /// gives the new position and the column it is drawn at.
    pub fn update<S: Fn(P, i16) -> (P, i16)>(&mut self, step: &S)
        requires
            step.requires((old(self).x, old(self).screen_cols)),
        ensures
            step.ensures(
                (old(self).x, old(self).screen_cols),
                (final(self).x, final(self).x_int),
            ),
            final(self).gap_middle == old(self).gap_middle,
            final(self).screen_cols == old(self).screen_cols,
            final(self).screen_rows == old(self).screen_rows,
            final(self).cached_colors@ == old(self).cached_colors@,
            final(self).scored == old(self).scored,
            final(self).width == old(self).width,
            final(self).gap_height == old(self).gap_height,
            final(self).pipe_gap == old(self).pipe_gap,
    {
        let (x, x_int) = step(self.x, self.screen_cols);
        self.x = x;
        self.x_int = x_int;
    }

    /// Draws the pipe: every visible cell of its columns, on every row of the
    /// screen outside the gap, becomes a full block in that column's color.
    pub fn draw(&self, buffer: &mut ScreenBuffer)
        requires
            old(buffer).wf(),
            self.wf(),
            self.x_int + self.width <= i16::MAX,
        ensures
            final(buffer).wf(),
            final(buffer)@.width == old(buffer)@.width,
            final(buffer)@.height == old(buffer)@.height,
            final(buffer)@.current == old(buffer)@.current,
            forall|x: int, y: int|
                0 <= x < old(buffer)@.width && 0 <= y < old(buffer)@.height ==>
                    #[trigger] final(buffer)@.next[old(buffer)@.index(x, y)] == self.drawn_cell(old(buffer)@, x, y),
    {
        if self.is_off_screen() {
            return;
        }
        let ghost v0 = buffer@;
        let gap_top = self.gap_middle - self.gap_height / 2;
        let gap_bottom = self.gap_middle + self.gap_height / 2;

        let start_offset = if self.x_int < 0 {
            -self.x_int
        } else {
            0
        };
        let end_offset = self.width;

        let mut y: i16 = 0;
        while y < self.screen_rows
            invariant
                self.wf(),
                i16::MIN < self.x_int,
                self.x_int + self.width <= i16::MAX,
                self.x_int + self.width >= 0,
                gap_top == self.gap_top(),
                gap_bottom == self.gap_bottom(),
                start_offset == (if self.x_int < 0 { -self.x_int } else { 0 }),
                end_offset == self.width,
                0 <= y,
                y <= self.screen_rows || y == 0,
                buffer.wf(),
                buffer@.width == v0.width,
                buffer@.height == v0.height,
                buffer@.current == v0.current,
                forall|x: int, yy: int|
                    0 <= x < v0.width && 0 <= yy < v0.height ==> #[trigger] buffer@.next[v0.index(x, yy)] == if yy < y {
                        self.drawn_cell(v0, x, yy)
                    } else {
                        v0.next[v0.index(x, yy)]
                    },
            decreases self.screen_rows - y,
        {
            if !(y >= gap_top && y < gap_bottom) {
                let mut x_offset = start_offset;
                while x_offset < end_offset && self.x_int + x_offset < self.screen_cols
                    invariant
                        self.wf(),
                        i16::MIN < self.x_int,
                        self.x_int + self.width <= i16::MAX,
                        self.x_int + self.width >= 0,
                        !(gap_top <= y < gap_bottom),
                        gap_top == self.gap_top(),
                        gap_bottom == self.gap_bottom(),
                        start_offset == (if self.x_int < 0 { -self.x_int } else { 0 }),
                        end_offset == self.width,
                        start_offset <= x_offset <= end_offset,
                        0 <= y < self.screen_rows,
                        buffer.wf(),
                        buffer@.width == v0.width,
                        buffer@.height == v0.height,
                        buffer@.current == v0.current,
                        forall|x: int, yy: int|
                            0 <= x < v0.width && 0 <= yy < v0.height ==> #[trigger] buffer@.next[v0.index(x, yy)] == if yy < y || (yy == y && x < self.x_int + x_offset) {
                                self.drawn_cell(v0, x, yy)
                            } else {
                                v0.next[v0.index(x, yy)]
                            },
                    decreases end_offset - x_offset,
                {
                    let world_x = self.x_int + x_offset;
                    let color = self.cached_colors[x_offset as usize];
                    let ghost before = buffer@;
                    buffer.set(world_x, y, '\u{2588}', color, color);
                    proof {
                        assert forall|x: int, yy: int| 0 <= x < v0.width && 0 <= yy < v0.height implies #[trigger] buffer@.next[v0.index(x, yy)] == if yy < y || (yy == y && x < self.x_int + x_offset + 1) {
                                self.drawn_cell(v0, x, yy)
                            } else {
                                v0.next[v0.index(x, yy)]
                            } by {
                            lemma_with_cell_at(before, world_x, y, Cell { ch: '\u{2588}', fg: color, bg: color }, x, yy);
                        }
                    }
                    x_offset = x_offset + 1;
                }
                proof {
                    assert forall|x: int, yy: int| 0 <= x < v0.width && 0 <= yy < v0.height implies #[trigger] buffer@.next[v0.index(x, yy)] == if yy < y + 1 {
                            self.drawn_cell(v0, x, yy)
                        } else {
                            v0.next[v0.index(x, yy)]
                        } by {
                        if yy == y && x >= self.x_int + x_offset {
                            assert(!self.paints(x, yy));
                        }
                    }
                }
            } else {
                proof {
                    assert forall|x: int, yy: int| 0 <= x < v0.width && 0 <= yy < v0.height implies #[trigger] buffer@.next[v0.index(x, yy)] == if yy < y + 1 {
                            self.drawn_cell(v0, x, yy)
                        } else {
                            v0.next[v0.index(x, yy)]
                        } by {
                        if yy == y {
                            assert(!self.paints(x, yy));
                        }
                    }
                }
            }
            y = y + 1;
        }
        proof {
            assert forall|x: int, yy: int| 0 <= x < v0.width && 0 <= yy < v0.height implies #[trigger] buffer@.next[v0.index(x, yy)] == self.drawn_cell(v0, x, yy) by {
                if yy >= y {
                    assert(!self.paints(x, yy));
                }
            }
        }
    }
}

/// What the player sees is what the bird hits: every cell that drawing a
/// pipe paints is one where an observer collides with it.
pub proof fn lemma_painted_cells_block<P: Copy>(p: Pipe<P>, x: int, y: int)
    requires
        p.paints(x, y),
    ensures
        p.blocks(x, y),
{
}

/// Drawing a pipe paints exactly its visible columns, on every row of the
/// screen outside its gap, each in that column's color, and leaves every
/// other cell as it was.
pub proof fn lemma_draw_fills_columns<P: Copy>(p: Pipe<P>, v: ScreenView, x: int, y: int)
    requires
        v.on_screen(x, y),
    ensures
        p.x_int <= x < p.x_int + p.width && x < p.screen_cols && y < p.screen_rows && !(p.gap_middle
            - p.gap_height / 2 <= y < p.gap_middle + p.gap_height / 2) ==> p.drawn_cell(v, x, y) == (Cell {
            ch: '\u{2588}',
            fg: p.cached_colors@[x - p.x_int],
            bg: p.cached_colors@[x - p.x_int],
        }),
        !(p.x_int <= x < p.x_int + p.width && x < p.screen_cols && y < p.screen_rows && !(p.gap_middle
            - p.gap_height / 2 <= y < p.gap_middle + p.gap_height / 2)) ==> p.drawn_cell(v, x, y) == v.next[v.index(
            x,
            y,
        )],
{
}

/// The gap lies on the screen: when the screen is tall enough for the gap to
/// be placed at random, its top row is at least 0 and the row below it at
/// most the screen's height.
pub proof fn lemma_gap_on_screen<P: Copy>(p: Pipe<P>)
    requires
        p.wf(),
        p.gap_height < p.screen_rows - p.gap_height,
    ensures
        0 <= p.gap_top(),
        p.gap_bottom() <= p.screen_rows,
        p.gap_top() < p.gap_bottom(),
{
}

/// The rows the middle of a pipe's gap is drawn from on a screen
/// `screen_rows` tall: from the gap's height up to, and without, the screen's
/// height less the gap's height, so that the whole gap lies on the screen.
/// The range is empty when the screen is too short for that.
pub fn gap_draw_range(screen_rows: i16) -> (r: (i16, i16))
    requires
        -1092 <= screen_rows <= 1092,
    ensures
        r.0 == gap_height_for(screen_rows as int),
        r.1 == screen_rows - r.0,
{
    let gap_height = max_i16(screen_rows * GAP_HEIGHT_PERCENT / 100, 6);
    (gap_height, screen_rows - gap_height)
}

/// The larger of two `i16`.
fn max_i16(a: i16, b: i16) -> (r: i16)
    ensures
        r == max(a as int, b as int),
{
    if a >= b {
        a
    } else {
        b
    }
}

} // verus!
