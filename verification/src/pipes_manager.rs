use vstd::prelude::*;

use std::collections::VecDeque;

use crate::cell::Cell;
use crate::pipe::{pipe_width, screen_fits, Pipe};
use crate::screen_buffer::{ScreenBuffer, ScreenView};

verus! {

/// Moving `pipes` by `step` keeps the pipes' arithmetic within `i16`: every
/// pipe's right edge, and for the last pipe also its gap's height beyond it,
/// stay at most `i16::MAX`.
pub open spec fn step_fits<P: Copy, S: Fn(P, i16) -> (P, i16)>(pipes: Seq<Pipe<P>>, step: S) -> bool {
    &&& forall|i: int, r: (P, i16)|
        0 <= i < pipes.len() && #[trigger] step.ensures((pipes[i].x, pipes[i].screen_cols), r) ==> r.1
            + pipes[i].width <= i16::MAX
    &&& pipes.len() > 0 ==> forall|r: (P, i16)|
        #[trigger] step.ensures((pipes.last().x, pipes.last().screen_cols), r) ==> r.1 + pipes.last().width
            + pipes.last().gap_height <= i16::MAX
}

/// `new` is `old` moved by `step`, all else kept.
pub open spec fn moved_by<P, S: Fn(P, i16) -> (P, i16)>(step: S, old: Pipe<P>, new: Pipe<P>) -> bool {
    &&& step.ensures((old.x, old.screen_cols), (new.x, new.x_int))
    &&& new.gap_middle == old.gap_middle
    &&& new.screen_cols == old.screen_cols
    &&& new.screen_rows == old.screen_rows
    &&& new.scored == old.scored
    &&& new.width == old.width
    &&& new.gap_height == old.gap_height
    &&& new.pipe_gap == old.pipe_gap
    &&& new.cached_colors@ == old.cached_colors@
}

/// The pipes after the front one is dropped if it has left the screen.
pub open spec fn after_cull<P>(pipes: Seq<Pipe<P>>) -> Seq<Pipe<P>> {
    if pipes.len() > 0 && pipes[0].x_int + pipes[0].width < 0 {
        pipes.drop_first()
    } else {
        pipes
    }
}

/// Whether the last pipe has moved far enough for the next one to come.
pub open spec fn needs_spawn<P>(pipes: Seq<Pipe<P>>) -> bool {
    &&& pipes.len() > 0
    &&& pipes.last().x_int + pipes.last().width + pipes.last().gap_height < pipes.last().screen_cols
}

/// `p` is a new pipe placed `last.pipe_gap` columns behind `last`, on a
/// screen `cols` by `rows`.
pub open spec fn spawned_after<P: Copy, G: Fn(i16) -> P, F: Fn(u8) -> u8>(
    last: Pipe<P>,
    p: Pipe<P>,
    cols: i16,
    rows: i16,
    place: G,
    scale: F,
) -> bool {
    &&& p.wf()
    &&& p.shaded_by(scale)
    &&& p.x_int == last.x_int + last.width + last.pipe_gap
    &&& p.screen_cols == cols
    &&& p.screen_rows == rows
    &&& !p.scored
    &&& place.ensures((p.x_int,), p.x)
}

/// `new` is `old` after one frame of `PipesManager::update`: every pipe
/// moved by `step`, the front one dropped if it has left the screen, and a
/// pipe made by `place` and `scale` added when the last one has moved far
/// enough.
pub open spec fn pipes_updated<P: Copy, S: Fn(P, i16) -> (P, i16), G: Fn(i16) -> P, F: Fn(u8) -> u8>(
    old: Seq<Pipe<P>>,
    new: Seq<Pipe<P>>,
    step: S,
    place: G,
    scale: F,
    cols: i16,
    rows: i16,
) -> bool {
    exists|moved: Seq<Pipe<P>>| {
        &&& moved.len() == old.len()
        &&& forall|i: int| 0 <= i < moved.len() ==> moved_by(step, old[i], #[trigger] moved[i])
        &&& if needs_spawn(after_cull(moved)) {
            &&& new.drop_last() == after_cull(moved)
            &&& new.len() == after_cull(moved).len() + 1
            &&& spawned_after(after_cull(moved).last(), new.last(), cols, rows, place, scale)
        } else {
            new == after_cull(moved)
        }
    }
}

/// The cell at `(x, y)` of the next frame of `v` once `pipes` have been
/// drawn on it, first to last: the last pipe that paints it decides.
pub open spec fn pipes_drawn_cell<P: Copy>(pipes: Seq<Pipe<P>>, v: ScreenView, x: int, y: int) -> Cell
    decreases pipes.len(),
{
    if pipes.len() == 0 {
        v.next[v.index(x, y)]
    } else {
        let last = pipes.last();
        if last.paints(x, y) && v.on_screen(x, y) {
            let c = last.cached_colors@[x - last.x_int];
            Cell { ch: '\u{2588}', fg: c, bg: c }
        } else {
            pipes_drawn_cell(pipes.drop_last(), v, x, y)
        }
    }
}

/// The pipes on the screen in the order they came: the front one is the
/// first to leave, new ones join at the back, behind the last. They stay
/// ordered left to right as long as the motion keeps their order (see
/// `lemma_update_keeps_order`).
pub struct PipesManager<P> {
    pub screen_cols: i16,
    pub screen_rows: i16,
    pub pipes_vec: VecDeque<Pipe<P>>,
}

impl<P: Copy> PipesManager<P> {
    /// Every pipe is well formed, made for this screen, with its right edge within `i16`.
    pub open spec fn wf(&self) -> bool {
        &&& screen_fits(self.screen_cols as int, self.screen_rows as int)
        &&& forall|i: int| 0 <= i < self.pipes_vec@.len() ==> self.pipe_ok(#[trigger] self.pipes_vec@[i])
    }

    pub open spec fn pipe_ok(&self, p: Pipe<P>) -> bool {
        &&& p.wf()
        &&& p.screen_cols == self.screen_cols
        &&& p.screen_rows == self.screen_rows
        &&& p.x_int + p.width <= i16::MAX
    }

    /// One pipe, placed so that its right edge touches the right edge of the screen.
    pub fn new<G: Fn(i16) -> P, F: Fn(u8) -> u8>(screen_cols: i16, screen_rows: i16, place: &G, scale: &F) -> (m: Self)
        requires
            screen_fits(screen_cols as int, screen_rows as int),
            forall|x: i16| place.requires((x,)),
            forall|c: u8| scale.requires((c,)),
        ensures
            m.wf(),
            m.screen_cols == screen_cols,
            m.screen_rows == screen_rows,
            m.pipes_vec@.len() == 1,
            m.pipes_vec@[0].x_int == screen_cols - pipe_width(screen_cols as int),
            !m.pipes_vec@[0].scored,
            m.pipes_vec@[0].shaded_by(*scale),
            place.ensures((m.pipes_vec@[0].x_int,), m.pipes_vec@[0].x),
    {
        let mut pipes_vec = VecDeque::with_capacity(4);
        let initial_pipe = Pipe::new(screen_cols, screen_cols, screen_rows, place, scale);
        let spawn_x = screen_cols - initial_pipe.width;
        pipes_vec.push_back(Pipe::new(spawn_x, screen_cols, screen_rows, place, scale));
        Self { screen_cols, screen_rows, pipes_vec }
    }

    /// Adds a pipe behind the last one, `pipe_gap` columns past its right
    /// edge; with no pipe, does nothing.
    fn spawn_new_pipe<G: Fn(i16) -> P, F: Fn(u8) -> u8>(&mut self, place: &G, scale: &F)
        requires
            old(self).wf(),
            old(self).pipes_vec@.len() > 0 ==> old(self).pipes_vec@.last().x_int + old(self).pipes_vec@.last().width
                + old(self).pipes_vec@.last().pipe_gap <= i16::MAX,
            forall|x: i16| place.requires((x,)),
            forall|c: u8| scale.requires((c,)),
        ensures
            final(self).screen_cols == old(self).screen_cols,
            final(self).screen_rows == old(self).screen_rows,
            old(self).pipes_vec@.len() == 0 ==> final(self).pipes_vec@ == old(self).pipes_vec@,
            old(self).pipes_vec@.len() > 0 ==> {
                &&& final(self).pipes_vec@.len() == old(self).pipes_vec@.len() + 1
                &&& final(self).pipes_vec@.drop_last() == old(self).pipes_vec@
                &&& spawned_after(
                    old(self).pipes_vec@.last(),
                    final(self).pipes_vec@.last(),
                    old(self).screen_cols,
                    old(self).screen_rows,
                    *place,
                    *scale,
                )
            },
    {
        let n = self.pipes_vec.len();
        if n > 0 {
            let last_pipe = &self.pipes_vec[n - 1];
            assert(self.pipe_ok(self.pipes_vec@[n - 1]));
            let next_x = last_pipe.x_int + last_pipe.width + last_pipe.pipe_gap;
            let p = Pipe::new(next_x, self.screen_cols, self.screen_rows, place, scale);
            self.pipes_vec.push_back(p);
            proof {
                assert(self.pipes_vec@.drop_last() =~= old(self).pipes_vec@);
            }
        }
    }

    /// Advances the pipes by one frame: each is moved by `step`, the front
    /// one is dropped once it has left the screen, and a new one joins
    /// behind the last when that one has moved far enough.
    pub fn update<S: Fn(P, i16) -> (P, i16), G: Fn(i16) -> P, F: Fn(u8) -> u8>(
        &mut self,
        step: &S,
        place: &G,
        scale: &F,
    )
        requires
            old(self).wf(),
            forall|p: P, c: i16| step.requires((p, c)),
            step_fits(old(self).pipes_vec@, *step),
            forall|x: i16| place.requires((x,)),
            forall|c: u8| scale.requires((c,)),
        ensures
            final(self).wf(),
            final(self).screen_cols == old(self).screen_cols,
            final(self).screen_rows == old(self).screen_rows,
            pipes_updated(
                old(self).pipes_vec@,
                final(self).pipes_vec@,
                *step,
                *place,
                *scale,
                old(self).screen_cols,
                old(self).screen_rows,
            ),
            old(self).pipes_vec@.len() > 0 ==> exists|m0: Pipe<P>|
                {
                    &&& #[trigger] moved_by(*step, old(self).pipes_vec@[0], m0)
                    &&& m0.x_int + m0.width >= 0 ==> final(self).pipes_vec@.len() >= old(self).pipes_vec@.len()
                        && final(self).pipes_vec@[0] == m0
                    &&& m0.x_int + m0.width < 0 ==> {
                        &&& old(self).pipes_vec@.len() <= final(self).pipes_vec@.len() + 1
                        &&& final(self).pipes_vec@.len() <= old(self).pipes_vec@.len()
                        &&& old(self).pipes_vec@.len() == 1 ==> final(self).pipes_vec@.len() == 0
                        &&& old(self).pipes_vec@.len() > 1 ==> moved_by(
                            *step,
                            old(self).pipes_vec@[1],
                            final(self).pipes_vec@[0],
                        )
                    }
                },
    {
        let n = self.pipes_vec.len();
        let mut i: usize = 0;
        while i < n
            invariant
                self.wf(),
                self.screen_cols == old(self).screen_cols,
                self.screen_rows == old(self).screen_rows,
                n == old(self).pipes_vec@.len(),
                self.pipes_vec@.len() == n,
                0 <= i <= n,
                forall|p: P, c: i16| step.requires((p, c)),
                step_fits(old(self).pipes_vec@, *step),
                forall|j: int| 0 <= j < i ==> moved_by(*step, old(self).pipes_vec@[j], #[trigger] self.pipes_vec@[j]),
                forall|j: int| i <= j < n ==> #[trigger] self.pipes_vec@[j] == old(self).pipes_vec@[j],
            decreases n - i,
        {
            let ghost before = self.pipes_vec@;
            let mut pipe = self.pipes_vec.remove(i).unwrap();
            pipe.update(step);
            self.pipes_vec.insert(i, pipe);
            proof {
                assert(self.pipes_vec@ =~= before.update(i as int, pipe));
                assert(self.pipe_ok(before[i as int]));
                assert forall|j: int| 0 <= j < self.pipes_vec@.len() implies self.pipe_ok(#[trigger] self.pipes_vec@[j]) by {
                    if j != i {
                        assert(self.pipe_ok(before[j]));
                    }
                }
            }
            i = i + 1;
        }
        let ghost moved = self.pipes_vec@;

        if self.pipes_vec.len() > 0 {
            assert(self.pipe_ok(self.pipes_vec@[0]));
            if self.pipes_vec[0].is_off_screen() {
                self.pipes_vec.pop_front();
                proof {
                    assert(self.pipes_vec@ =~= moved.drop_first());
                    assert forall|j: int| 0 <= j < self.pipes_vec@.len() implies self.pipe_ok(#[trigger] self.pipes_vec@[j]) by {
                        assert(self.pipes_vec@[j] == moved[j + 1]);
                    }
                }
            }
        }
        let ghost culled = self.pipes_vec@;
        assert(culled == after_cull(moved));

        let m = self.pipes_vec.len();
        if m > 0 {
            assert(self.pipe_ok(self.pipes_vec@[m - 1]));
            proof {
                let last = old(self).pipes_vec@.last();
                assert(self.pipes_vec@[m - 1] == moved[n - 1]);
                assert(moved_by(*step, old(self).pipes_vec@[n - 1], moved[n - 1]));
                assert(step.ensures((last.x, last.screen_cols), (moved[n - 1].x, moved[n - 1].x_int)));
            }
            if self.pipes_vec[m - 1].should_spawn_next() {
                let ghost before = self.pipes_vec@;
                self.spawn_new_pipe(place, scale);
                proof {
                    assert forall|i: int| 0 <= i < self.pipes_vec@.len() implies self.pipe_ok(#[trigger] self.pipes_vec@[i]) by {
                        if i < m {
                            assert(self.pipes_vec@[i] == before[i]);
                            assert(self.pipe_ok(before[i]));
                        }
                    }
                }
            }
        }
        assert(moved.len() == old(self).pipes_vec@.len());
        assert(forall|i: int| 0 <= i < moved.len() ==> moved_by(*step, old(self).pipes_vec@[i], #[trigger] moved[i]));
        proof {
            if n > 0 {
                lemma_update_culls_departed(
                    old(self).pipes_vec@,
                    self.pipes_vec@,
                    *step,
                    *place,
                    *scale,
                    old(self).screen_cols,
                    old(self).screen_rows,
                );
            }
        }
    }

    /// Draws every pipe, front to back.
    pub fn draw(&self, buffer: &mut ScreenBuffer)
        requires
            self.wf(),
            old(buffer).wf(),
        ensures
            final(buffer).wf(),
            final(buffer)@.width == old(buffer)@.width,
            final(buffer)@.height == old(buffer)@.height,
            final(buffer)@.current == old(buffer)@.current,
            forall|x: int, y: int|
                0 <= x < old(buffer)@.width && 0 <= y < old(buffer)@.height ==>
                    #[trigger] final(buffer)@.next[old(buffer)@.index(x, y)]
                        == pipes_drawn_cell(self.pipes_vec@, old(buffer)@, x, y),
    {
        let ghost v0 = buffer@;
        let n = self.pipes_vec.len();
        let mut i: usize = 0;
        while i < n
            invariant
                self.wf(),
                n == self.pipes_vec@.len(),
                0 <= i <= n,
                buffer.wf(),
                buffer@.width == v0.width,
                buffer@.height == v0.height,
                buffer@.current == v0.current,
                forall|x: int, y: int|
                    0 <= x < v0.width && 0 <= y < v0.height ==>
                        #[trigger] buffer@.next[v0.index(x, y)]
                            == pipes_drawn_cell(self.pipes_vec@.subrange(0, i as int), v0, x, y),
            decreases n - i,
        {
            let ghost before = buffer@;
            assert(self.pipe_ok(self.pipes_vec@[i as int]));
            self.pipes_vec[i].draw(buffer);
            proof {
                let pre = self.pipes_vec@.subrange(0, i as int);
                let post = self.pipes_vec@.subrange(0, i + 1);
                assert(post.drop_last() =~= pre);
                assert forall|x: int, y: int|
                    0 <= x < v0.width && 0 <= y < v0.height implies
                        #[trigger] buffer@.next[v0.index(x, y)]
                            == pipes_drawn_cell(post, v0, x, y) by {
                    assert(before.on_screen(x, y) == v0.on_screen(x, y));
                    assert(before.next[before.index(x, y)] == pipes_drawn_cell(pre, v0, x, y));
                }
            }
            i = i + 1;
        }
        proof {
            assert(self.pipes_vec@.subrange(0, n as int) =~= self.pipes_vec@);
        }
    }
}

/// `pipes` stand left to right: no pipe stands right of one behind it.
pub open spec fn ordered<P>(pipes: Seq<Pipe<P>>) -> bool {
    forall|i: int, j: int| #![trigger pipes[i], pipes[j]] 0 <= i < j < pipes.len() ==> pipes[i].x_int <= pipes[j].x_int
}

/// Moving `pipes` by `step` keeps their order: no pipe moves past one
/// behind it.
pub open spec fn step_keeps_order<P, S: Fn(P, i16) -> (P, i16)>(pipes: Seq<Pipe<P>>, step: S) -> bool {
    forall|i: int, j: int, ri: (P, i16), rj: (P, i16)|
        0 <= i < j < pipes.len() && #[trigger] step.ensures((pipes[i].x, pipes[i].screen_cols), ri)
            && #[trigger] step.ensures((pipes[j].x, pipes[j].screen_cols), rj) ==> ri.1 <= rj.1
}

/// The pipes never overtake each other: if they stand left to right and the
/// motion keeps their order, they still stand left to right after a frame,
/// the front one being the leftmost and a new pipe joining behind the last.
pub proof fn lemma_update_keeps_order<P: Copy, S: Fn(P, i16) -> (P, i16), G: Fn(i16) -> P, F: Fn(u8) -> u8>(
    old: Seq<Pipe<P>>,
    new: Seq<Pipe<P>>,
    step: S,
    place: G,
    scale: F,
    cols: i16,
    rows: i16,
)
    requires
        forall|i: int| 0 <= i < old.len() ==> (#[trigger] old[i]).wf(),
        ordered(old),
        step_keeps_order(old, step),
        pipes_updated(old, new, step, place, scale, cols, rows),
    ensures
        ordered(new),
{
    let moved = choose|moved: Seq<Pipe<P>>| {
        &&& moved.len() == old.len()
        &&& forall|i: int| 0 <= i < moved.len() ==> moved_by(step, old[i], #[trigger] moved[i])
        &&& if needs_spawn(after_cull(moved)) {
            &&& new.drop_last() == after_cull(moved)
            &&& new.len() == after_cull(moved).len() + 1
            &&& spawned_after(after_cull(moved).last(), new.last(), cols, rows, place, scale)
        } else {
            new == after_cull(moved)
        }
    };
    assert forall|i: int, j: int| #![trigger moved[i], moved[j]] 0 <= i < j < moved.len() implies moved[i].x_int <= moved[j].x_int by {
        assert(moved_by(step, old[i], moved[i]));
        assert(moved_by(step, old[j], moved[j]));
        assert(step.ensures((old[i].x, old[i].screen_cols), (moved[i].x, moved[i].x_int)));
        assert(step.ensures((old[j].x, old[j].screen_cols), (moved[j].x, moved[j].x_int)));
    }
    let culled = after_cull(moved);
    if moved.len() > 0 && moved[0].x_int + moved[0].width < 0 {
        assert forall|i: int, j: int| #![trigger culled[i], culled[j]] 0 <= i < j < culled.len() implies culled[i].x_int <= culled[j].x_int by {
            assert(culled[i] == moved[i + 1]);
            assert(culled[j] == moved[j + 1]);
        }
    }
    assert(ordered(culled));
    if needs_spawn(culled) {
        let k = culled.len() - 1;
        assert(moved_by(step, old[k + moved.len() - culled.len()], culled[k])) by {
            assert(culled[k] == moved[k + moved.len() - culled.len()]);
        }
        assert(old[k + moved.len() - culled.len()].wf());
        assert forall|i: int, j: int| #![trigger new[i], new[j]] 0 <= i < j < new.len() implies new[i].x_int <= new[j].x_int by {
            assert(new[i] == culled[i]);
            if j < new.len() - 1 {
                assert(new[j] == culled[j]);
            } else {
                assert(culled[i].x_int <= culled[k].x_int);
            }
        }
    }
}

/// A frame drops the front pipe exactly when, once moved, its right edge
/// `x_int + width` is left of column 0: a moved front pipe with any column at
/// or right of column 0 stays in front; one entirely past the left edge is
/// gone, and the next pipe, moved, is in front.
pub proof fn lemma_update_culls_departed<P: Copy, S: Fn(P, i16) -> (P, i16), G: Fn(i16) -> P, F: Fn(u8) -> u8>(
    old: Seq<Pipe<P>>,
    new: Seq<Pipe<P>>,
    step: S,
    place: G,
    scale: F,
    cols: i16,
    rows: i16,
)
    requires
        pipes_updated(old, new, step, place, scale, cols, rows),
        old.len() > 0,
    ensures
        exists|m0: Pipe<P>|
            {
                &&& #[trigger] moved_by(step, old[0], m0)
                &&& m0.x_int + m0.width >= 0 ==> new.len() >= old.len() && new[0] == m0
                &&& m0.x_int + m0.width < 0 ==> {
                    &&& old.len() <= new.len() + 1
                    &&& new.len() <= old.len()
                    &&& old.len() == 1 ==> new.len() == 0
                    &&& old.len() > 1 ==> moved_by(step, old[1], new[0])
                }
            },
{
    let moved = choose|moved: Seq<Pipe<P>>| {
        &&& moved.len() == old.len()
        &&& forall|i: int| 0 <= i < moved.len() ==> moved_by(step, old[i], #[trigger] moved[i])
        &&& if needs_spawn(after_cull(moved)) {
            &&& new.drop_last() == after_cull(moved)
            &&& new.len() == after_cull(moved).len() + 1
            &&& spawned_after(after_cull(moved).last(), new.last(), cols, rows, place, scale)
        } else {
            new == after_cull(moved)
        }
    };
    let m0 = moved[0];
    assert(moved_by(step, old[0], m0));
    let culled = after_cull(moved);
    if needs_spawn(culled) {
        assert(new.drop_last() == culled);
        if culled.len() > 0 {
            assert(new[0] == new.drop_last()[0]);
        }
    }
    if m0.x_int + m0.width < 0 && old.len() > 1 {
        assert(culled[0] == moved[1]);
        assert(moved_by(step, old[1], moved[1]));
    }
}

} // verus!
