use vstd::prelude::*;

use crate::bird::{bird_column, bird_column_for, draw_bird, with_bird, SPRITE_CELL_WIDTH};
use crate::cell::Cell;
use crate::color::Color;
use crate::pipe::{screen_fits, Pipe};
use crate::pipes_manager::{
    after_cull, moved_by, needs_spawn, pipes_drawn_cell, pipes_updated, spawned_after,
    step_fits, PipesManager,
};
use crate::scoring_system::{lemma_decimal_len, lemma_write_text_at, lemma_write_text_shape, score_text, ScoringSystem};
use crate::screen_buffer::{ScreenBuffer, ScreenView};

verus! {

/// A key the player pressed, as far as the game tells keys apart.
#[derive(Clone, Copy, Debug, PartialEq, Eq, Structural)]
pub enum Key {
    Char(char),
    Esc,
    Enter,
    Other,
}

/// What the game does about a key press.
#[derive(Clone, Copy, Debug, PartialEq, Eq, Structural)]
pub enum KeyAction {
    /// End the game.
    Quit,
    /// Make the bird jump, and read no more keys this frame.
    Jump,
    /// Nothing; read the next key.
    Ignore,
}

/// The game's controls: Ctrl+C, Esc and `q` quit; Enter and Space jump.
pub open spec fn action_for(key: Key, ctrl: bool) -> KeyAction {
    match key {
        Key::Char(c) => if (c == 'c' && ctrl) || c == 'q' {
            KeyAction::Quit
        } else if c == ' ' {
            KeyAction::Jump
        } else {
            KeyAction::Ignore
        },
        Key::Esc => KeyAction::Quit,
        Key::Enter => KeyAction::Jump,
        Key::Other => KeyAction::Ignore,
    }
}

/// Decides what a key press does; `ctrl` tells whether Control was held.
pub fn key_action(key: Key, ctrl: bool) -> (a: KeyAction)
    ensures
        a == action_for(key, ctrl),
        (a == KeyAction::Quit) == (key == Key::Esc || key == Key::Char('q') || (key == Key::Char('c') && ctrl)),
        (a == KeyAction::Jump) == (key == Key::Enter || key == Key::Char(' ')),
{
    proof {
        lemma_controls(key, ctrl);
    }
    match key {
        Key::Char('c') if ctrl => KeyAction::Quit,
        Key::Esc | Key::Char('q') => KeyAction::Quit,
        Key::Enter | Key::Char(' ') => KeyAction::Jump,
        _ => KeyAction::Ignore,
    }
}

/// The game's controls: Esc, `q` and Ctrl+C quit; Enter and Space jump;
/// every other key, with or without Control, is ignored.
pub proof fn lemma_controls(key: Key, ctrl: bool)
    ensures
        (action_for(key, ctrl) == KeyAction::Quit) == (key == Key::Esc || key == Key::Char('q') || (key
            == Key::Char('c') && ctrl)),
        (action_for(key, ctrl) == KeyAction::Jump) == (key == Key::Enter || key == Key::Char(' ')),
        (action_for(key, ctrl) == KeyAction::Ignore) == !(key == Key::Esc || key == Key::Char('q') || (key
            == Key::Char('c') && ctrl) || key == Key::Enter || key == Key::Char(' ')),
        action_for(Key::Other, ctrl) == KeyAction::Ignore,
{
}

/// A cell of the bird's sprite hits a pipe exactly when an observer at that
/// cell collides with the pipe, on every row of the screen.
pub proof fn lemma_hits_are_collisions<P: Copy>(p: Pipe<P>, bird_x: i16, bird_row: i16, offset: int)
    ensures
        hits(p, bird_x, bird_row, offset) == p.blocks(bird_x + offset, bird_row as int),
        hits(p, bird_x, bird_row, offset) == (p.x_int <= bird_x + offset <= p.x_int + p.width && (bird_row
            <= p.gap_middle - p.gap_height / 2 || bird_row >= p.gap_middle + p.gap_height / 2)),
{
}

/// Cell `offset` of the bird's sprite, at column `bird_x + offset` of row
/// `bird_row`, hits pipe `p`.
pub open spec fn hits<P: Copy>(p: Pipe<P>, bird_x: i16, bird_row: i16, offset: int) -> bool {
    p.blocks(bird_x + offset, bird_row as int)
}

/// The bird at column `bird_x` has flown past pipe `p`, which has not been
/// counted yet.
pub open spec fn passes<P: Copy>(p: Pipe<P>, bird_x: i16) -> bool {
    !p.scored && p.x_int + p.width < bird_x
}

/// `new` is `old` after `did_bird_passthrough` answered `r`: the first pipe
/// that the bird has passed and that was not counted is now counted; if
/// there is none, nothing changes.
pub open spec fn passed_through<P: Copy>(old: Seq<Pipe<P>>, new: Seq<Pipe<P>>, bird_x: i16, r: bool) -> bool {
    if r {
        exists|k: int|
            0 <= k < old.len() && #[trigger] passes(old[k], bird_x) && (forall|j: int|
                0 <= j < k ==> !passes(#[trigger] old[j], bird_x)) && new == old.update(k, old[k].marked_scored())
    } else {
        (forall|j: int| 0 <= j < old.len() ==> !passes(#[trigger] old[j], bird_x)) && new == old
    }
}

/// Cell `(x, y)` of a frame: the score board over the pipes over the bird
/// over the `cleared` sky.
pub open spec fn frame_cell<P: Copy>(
    pipes: Seq<Pipe<P>>,
    bird_x: i16,
    bird_row: i16,
    score: u32,
    cleared: ScreenView,
    x: int,
    y: int,
) -> Cell {
    let text = score_text(score);
    if y == 1 && 1 <= x < 1 + text.len() && cleared.on_screen(x, y) {
        Cell { ch: text[x - 1], fg: Color::White, bg: Color::Black }
    } else {
        pipes_drawn_cell(pipes, with_bird(cleared, bird_x, bird_row), x, y)
    }
}

/// The score board is drawn last: on every frame, each cell of row 1 that
/// the board's text covers shows that character in white on black, whatever
/// pipe or bird stands there.
pub proof fn lemma_board_on_top<P: Copy>(
    pipes: Seq<Pipe<P>>,
    bird_x: i16,
    bird_row: i16,
    score: u32,
    cleared: ScreenView,
    x: int,
)
    requires
        1 <= x < 1 + score_text(score).len(),
        cleared.on_screen(x, 1),
    ensures
        frame_cell(pipes, bird_x, bird_row, score, cleared, x, 1) == (Cell {
            ch: score_text(score)[x - 1],
            fg: Color::White,
            bg: Color::Black,
        }),
{
}

/// The state of a game: the screen, the bird's column, the pipes and the
/// score. The bird's height is kept by the caller and passed in.
pub struct Game<P> {
    pub buffer: ScreenBuffer,
    pub bird_x: i16,
    pub pipes_manager: PipesManager<P>,
    pub scoring_system: ScoringSystem,
}

impl<P: Copy> Game<P> {
    pub open spec fn wf(&self) -> bool {
        &&& self.buffer.wf()
        &&& self.pipes_manager.wf()
        &&& self.bird_x == bird_column_for(self.pipes_manager.screen_cols as int)
    }

    /// A new game on a screen `screen_cols` by `screen_rows`: a blank
    /// screen, one pipe at the right edge, a score of zero.
    pub fn new<G: Fn(i16) -> P, F: Fn(u8) -> u8>(screen_cols: i16, screen_rows: i16, place: &G, scale: &F) -> (g: Self)
        requires
            screen_fits(screen_cols as int, screen_rows as int),
            forall|x: i16| place.requires((x,)),
            forall|c: u8| scale.requires((c,)),
        ensures
            g.wf(),
            g.buffer@.width == screen_cols as u16,
            g.buffer@.height == screen_rows as u16,
            forall|i: int| 0 <= i < g.buffer@.next.len() ==> g.buffer@.next[i] == crate::cell::blank_cell(),
            forall|i: int| 0 <= i < g.buffer@.current.len() ==> g.buffer@.current[i] == crate::cell::blank_cell(),
            g.pipes_manager.screen_cols == screen_cols,
            g.pipes_manager.screen_rows == screen_rows,
            g.pipes_manager.pipes_vec@.len() == 1,
            g.pipes_manager.pipes_vec@[0].x_int == screen_cols - crate::pipe::pipe_width(screen_cols as int),
            !g.pipes_manager.pipes_vec@[0].scored,
            g.pipes_manager.pipes_vec@[0].shaded_by(*scale),
            place.ensures((g.pipes_manager.pipes_vec@[0].x_int,), g.pipes_manager.pipes_vec@[0].x),
            g.scoring_system.score == 0,
    {
        let buffer = ScreenBuffer::new(screen_cols as u16, screen_rows as u16);
        let bird_x = bird_column(screen_cols);
        let pipes_manager = PipesManager::new(screen_cols, screen_rows, place, scale);
        let scoring_system = ScoringSystem::new();
        Self { buffer, bird_x, pipes_manager, scoring_system }
    }

    /// Whether any cell of the bird's sprite, on row `bird_row`, hits a pipe.
    pub fn has_bird_collided(&self, bird_row: i16) -> (r: bool)
        requires
            self.wf(),
        ensures
            r == exists|i: int, offset: int|
                0 <= i < self.pipes_manager.pipes_vec@.len() && 0 <= offset < SPRITE_CELL_WIDTH
                    && #[trigger] hits(self.pipes_manager.pipes_vec@[i], self.bird_x, bird_row, offset),
            r == exists|i: int, x: int|
                0 <= i < self.pipes_manager.pipes_vec@.len() && self.bird_x <= x < self.bird_x + SPRITE_CELL_WIDTH
                    && #[trigger] self.pipes_manager.pipes_vec@[i].blocks(x, bird_row as int),
    {
        let pipes = &self.pipes_manager.pipes_vec;
        let n = pipes.len();
        let mut i: usize = 0;
        while i < n
            invariant
                self.wf(),
                n == pipes@.len(),
                pipes == &self.pipes_manager.pipes_vec,
                0 <= i <= n,
                forall|j: int, offset: int|
                    0 <= j < i && 0 <= offset < SPRITE_CELL_WIDTH ==> !#[trigger] hits(pipes@[j], self.bird_x, bird_row, offset),
            decreases n - i,
        {
            let pipe = &pipes[i];
            assert(self.pipes_manager.pipe_ok(pipes@[i as int]));
            let mut offset: i16 = 0;
            while offset < SPRITE_CELL_WIDTH
                invariant
                    self.wf(),
                    0 <= i < n,
                    n == pipes@.len(),
                    *pipe == pipes@[i as int],
                    pipes == &self.pipes_manager.pipes_vec,
                    pipe.wf(),
                    pipe.x_int + pipe.width <= i16::MAX,
                    0 <= offset <= SPRITE_CELL_WIDTH,
                    forall|o: int| 0 <= o < offset ==> !#[trigger] hits(*pipe, self.bird_x, bird_row, o),
                decreases SPRITE_CELL_WIDTH - offset,
            {
                let current_bird_x = self.bird_x + offset;
                let current_bird_y = bird_row;
                if pipe.check_collission(current_bird_x, current_bird_y) {
                    assert(hits(pipes@[i as int], self.bird_x, bird_row, offset as int));
                    assert(pipes@[i as int].blocks(self.bird_x + offset, bird_row as int));
                    return true;
                }
                offset = offset + 1;
            }
            i = i + 1;
        }
        proof {
            assert forall|j: int, x: int|
                0 <= j < n && self.bird_x <= x < self.bird_x + SPRITE_CELL_WIDTH implies !#[trigger] pipes@[j].blocks(
                x,
                bird_row as int,
            ) by {
                assert(!hits(pipes@[j], self.bird_x, bird_row, x - self.bird_x));
            }
        }
        false
    }

    /// Counts the first pipe that the bird has flown past and that was not
    /// counted yet; answers whether there was one.
    pub fn did_bird_passthrough(&mut self) -> (r: bool)
        requires
            old(self).wf(),
        ensures
            final(self).wf(),
            passed_through(old(self).pipes_manager.pipes_vec@, final(self).pipes_manager.pipes_vec@, old(self).bird_x, r),
            final(self).pipes_manager.screen_cols == old(self).pipes_manager.screen_cols,
            final(self).pipes_manager.screen_rows == old(self).pipes_manager.screen_rows,
            final(self).buffer@ == old(self).buffer@,
            final(self).bird_x == old(self).bird_x,
            final(self).scoring_system.score == old(self).scoring_system.score,
    {
        let n = self.pipes_manager.pipes_vec.len();
        let mut i: usize = 0;
        while i < n
            invariant
                self.wf(),
                self.pipes_manager.pipes_vec@ == old(self).pipes_manager.pipes_vec@,
                self.pipes_manager.screen_cols == old(self).pipes_manager.screen_cols,
                self.pipes_manager.screen_rows == old(self).pipes_manager.screen_rows,
                self.buffer@ == old(self).buffer@,
                self.bird_x == old(self).bird_x,
                self.scoring_system.score == old(self).scoring_system.score,
                n == self.pipes_manager.pipes_vec@.len(),
                0 <= i <= n,
                forall|j: int| 0 <= j < i ==> !passes(#[trigger] self.pipes_manager.pipes_vec@[j], self.bird_x),
            decreases n - i,
        {
            assert(self.pipes_manager.pipe_ok(self.pipes_manager.pipes_vec@[i as int]));
            let pipe = &self.pipes_manager.pipes_vec[i];
            if !pipe.scored && (pipe.x_int + pipe.width) < self.bird_x {
                let ghost before = self.pipes_manager.pipes_vec@;
                let mut p = self.pipes_manager.pipes_vec.remove(i).unwrap();
                p.scored = true;
                self.pipes_manager.pipes_vec.insert(i, p);
                proof {
                    assert(self.pipes_manager.pipes_vec@ =~= before.update(i as int, before[i as int].marked_scored()));
                    assert(passes(before[i as int], self.bird_x));
                    assert forall|j: int| 0 <= j < self.pipes_manager.pipes_vec@.len() implies
                        self.pipes_manager.pipe_ok(#[trigger] self.pipes_manager.pipes_vec@[j]) by {
                        assert(self.pipes_manager.pipe_ok(before[j]));
                    }
                }
                return true;
            }
            i = i + 1;
        }
        false
    }

    /// Plays one frame once the bird has moved to row `bird_row`: the pipes
    /// advance (`step`, `place`, `scale`, see `PipesManager::update`), a pipe
    /// the bird has flown past scores a point, and the next frame is drawn:
    /// the sky darkened row by row by `shade`, the bird, the pipes and the
    /// score board.
    pub fn advance<S: Fn(P, i16) -> (P, i16), G: Fn(i16) -> P, F: Fn(u8) -> u8, H: Fn(u16, u16, u8) -> u8>(
        &mut self,
        bird_row: i16,
        step: &S,
        place: &G,
        scale: &F,
        shade: &H,
    ) -> (r: std::io::Result<bool>)
        requires
            old(self).wf(),
            old(self).scoring_system.score < u32::MAX,
            forall|p: P, c: i16| step.requires((p, c)),
            step_fits(old(self).pipes_manager.pipes_vec@, *step),
            forall|x: i16| place.requires((x,)),
            forall|c: u8| scale.requires((c,)),
            forall|y: u16, h: u16, c: u8| shade.requires((y, h, c)),
        ensures
            final(self).wf(),
            r matches Ok(b) && b,
            final(self).bird_x == old(self).bird_x,
            final(self).pipes_manager.screen_cols == old(self).pipes_manager.screen_cols,
            final(self).pipes_manager.screen_rows == old(self).pipes_manager.screen_rows,
            exists|moved: Seq<Pipe<P>>, scored: bool|
                {
                    &&& pipes_updated(
                        old(self).pipes_manager.pipes_vec@,
                        moved,
                        *step,
                        *place,
                        *scale,
                        old(self).pipes_manager.screen_cols,
                        old(self).pipes_manager.screen_rows,
                    )
                    &&& #[trigger] passed_through(moved, final(self).pipes_manager.pipes_vec@, old(self).bird_x, scored)
                    &&& final(self).scoring_system.score == old(self).scoring_system.score + if scored {
                        1int
                    } else {
                        0int
                    }
                },
            final(self).buffer@.width == old(self).buffer@.width,
            final(self).buffer@.height == old(self).buffer@.height,
            final(self).buffer@.current == old(self).buffer@.current,
            forall|x: int|
                1 <= x < 1 + score_text(final(self).scoring_system.score).len() && old(self).buffer@.on_screen(x, 1)
                    ==> #[trigger] final(self).buffer@.next[old(self).buffer@.index(x, 1)] == (Cell {
                    ch: score_text(final(self).scoring_system.score)[x - 1],
                    fg: Color::White,
                    bg: Color::Black,
                }),
            exists|cleared: ScreenView|
                {
                    &&& #[trigger] old(self).buffer@.cleared_to(cleared, *shade)
                    &&& forall|x: int, y: int|
                        0 <= x < old(self).buffer@.width && 0 <= y < old(self).buffer@.height
                            ==> #[trigger] final(self).buffer@.next[old(self).buffer@.index(x, y)] == frame_cell(
                            final(self).pipes_manager.pipes_vec@,
                            old(self).bird_x,
                            bird_row,
                            final(self).scoring_system.score,
                            cleared,
                            x,
                            y,
                        )
                },
    {
        self.pipes_manager.update(step, place, scale);
        let ghost moved = self.pipes_manager.pipes_vec@;

        let scored = self.did_bird_passthrough();
        if scored {
            self.scoring_system.increment_score();
        }
        assert(passed_through(moved, self.pipes_manager.pipes_vec@, old(self).bird_x, scored));

        self.buffer.clear_next(shade);
        let ghost cleared = self.buffer@;

        draw_bird(&mut self.buffer, self.bird_x, bird_row);
        let ghost with_b = self.buffer@;
        assert(with_b == with_bird(cleared, self.bird_x, bird_row));

        self.pipes_manager.draw(&mut self.buffer);
        let ghost with_p = self.buffer@;

        let ghost score = self.scoring_system.score;
        proof {
            lemma_decimal_len(score as nat);
        }
        match self.scoring_system.draw_score_board(&mut self.buffer) {
            Ok(_) => {},
            Err(e) => {
                return Err(e);
            },
        }
        proof {
            lemma_write_text_shape(with_p, 1, 1, score_text(score), Color::White, Color::Black);
            let v0 = old(self).buffer@;
            assert forall|x: int, y: int|
                0 <= x < v0.width && 0 <= y < v0.height implies #[trigger] self.buffer@.next[v0.index(x, y)]
                    == frame_cell(self.pipes_manager.pipes_vec@, old(self).bird_x, bird_row, score, cleared, x, y) by {
                lemma_write_text_at(with_p, 1, 1, score_text(score), Color::White, Color::Black, x, y);
            }
            assert forall|x: int|
                1 <= x < 1 + score_text(score).len() && v0.on_screen(x, 1) implies #[trigger] self.buffer@.next[v0.index(
                x,
                1,
            )] == (Cell { ch: score_text(score)[x - 1], fg: Color::White, bg: Color::Black }) by {
                crate::screen_buffer::lemma_on_screen(v0, x, 1);
                lemma_write_text_at(with_p, 1, 1, score_text(score), Color::White, Color::Black, x, 1);
            }
        }
        Ok(true)
    }
}

/// How many of `pipes` have been flown past and counted.
pub open spec fn count_scored<P>(pipes: Seq<Pipe<P>>) -> nat
    decreases pipes.len(),
{
    if pipes.len() == 0 {
        0
    } else {
        count_scored(pipes.drop_last()) + if pipes.last().scored {
            1nat
        } else {
            0nat
        }
    }
}

proof fn lemma_count_update<P: Copy>(pipes: Seq<Pipe<P>>, k: int, p: Pipe<P>)
    requires
        0 <= k < pipes.len(),
    ensures
        count_scored(pipes.update(k, p)) + (if pipes[k].scored { 1int } else { 0int })
            == count_scored(pipes) + (if p.scored { 1int } else { 0int }),
    decreases pipes.len(),
{
    let u = pipes.update(k, p);
    if k < pipes.len() - 1 {
        assert(u.drop_last() =~= pipes.drop_last().update(k, p));
        lemma_count_update(pipes.drop_last(), k, p);
    } else {
        assert(u.drop_last() =~= pipes.drop_last());
    }
}

proof fn lemma_count_same_flags<P: Copy>(a: Seq<Pipe<P>>, b: Seq<Pipe<P>>)
    requires
        a.len() == b.len(),
        forall|i: int| 0 <= i < a.len() ==> #[trigger] a[i].scored == b[i].scored,
    ensures
        count_scored(a) == count_scored(b),
    decreases a.len(),
{
    if a.len() > 0 {
        lemma_count_same_flags(a.drop_last(), b.drop_last());
    }
}

proof fn lemma_count_drop_first<P: Copy>(pipes: Seq<Pipe<P>>)
    requires
        pipes.len() > 0,
    ensures
        count_scored(pipes.drop_first()) <= count_scored(pipes),
    decreases pipes.len(),
{
    if pipes.len() > 1 {
        assert(pipes.drop_first().drop_last() =~= pipes.drop_last().drop_first());
        lemma_count_drop_first(pipes.drop_last());
    }
}

/// Counting a pass marks exactly one more pipe as passed, and only when it
/// answers yes: a pipe is counted once.
pub proof fn lemma_passthrough_counts_once<P: Copy>(old: Seq<Pipe<P>>, new: Seq<Pipe<P>>, bird_x: i16, r: bool)
    requires
        passed_through(old, new, bird_x, r),
    ensures
        count_scored(new) == count_scored(old) + if r { 1int } else { 0int },
        forall|i: int| 0 <= i < old.len() && #[trigger] old[i].scored ==> new[i].scored,
        new.len() == old.len(),
{
    if r {
        let k = choose|k: int|
            0 <= k < old.len() && #[trigger] passes(old[k], bird_x) && (forall|j: int|
                0 <= j < k ==> !passes(#[trigger] old[j], bird_x)) && new == old.update(k, old[k].marked_scored());
        lemma_count_update(old, k, old[k].marked_scored());
    }
}

/// Moving the pipes never counts one as passed: the pipes a frame's update
/// leaves have at most as many counted as before, and a new pipe is not
/// counted.
pub proof fn lemma_update_awards_nothing<P: Copy, S: Fn(P, i16) -> (P, i16), G: Fn(i16) -> P, F: Fn(u8) -> u8>(
    old: Seq<Pipe<P>>,
    new: Seq<Pipe<P>>,
    step: S,
    place: G,
    scale: F,
    cols: i16,
    rows: i16,
)
    requires
        pipes_updated(old, new, step, place, scale, cols, rows),
    ensures
        count_scored(new) <= count_scored(old),
{
    let moved = choose|moved: Seq<Pipe<P>>| {
        &&& moved.len() == old.len()
        &&& forall|i: int| 0 <= i < moved.len() ==> moved_by(step, old[i], #[trigger] moved[i])
        &&& if needs_spawn(after_cull(moved)) {
            &&& new.drop_last() == after_cull(moved)
            &&& new.len() == after_cull(moved).len() + 1
            &&& spawned_after(after_cull(moved).last(), new.last(), cols, rows, place, scale)
        } else {
            new == after_cull(moved)
        }
    };
    assert forall|i: int| 0 <= i < old.len() implies #[trigger] old[i].scored == moved[i].scored by {
        assert(moved_by(step, old[i], moved[i]));
    }
    lemma_count_same_flags(old, moved);
    let culled = after_cull(moved);
    if moved.len() > 0 && moved[0].x_int + moved[0].width < 0 {
        lemma_count_drop_first(moved);
    }
    if needs_spawn(culled) {
        assert(new.drop_last() == culled);
        assert(!new.last().scored);
    }
}

} // verus!
