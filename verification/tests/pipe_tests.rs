use rustty_bird::color::Color;
use rustty_bird::pipe::{gap_draw_range, pipe_color_leftmost, Pipe};
use rustty_bird::pipes_manager::PipesManager;
use rustty_bird::screen_buffer::ScreenBuffer;

fn place(x: i16) -> f32 {
    x as f32
}

fn halve(c: u8) -> u8 {
    c / 2
}

/// A pipe whose gap is fixed: 3 columns wide, gap rows 2..8 on a 20 by 10 screen.
fn small_pipe(x_int: i16) -> Pipe<f32> {
    Pipe::new(x_int, 20, 10, &place, &halve)
}

#[test]
fn dimensions_follow_the_screen() {
    let p = Pipe::new(10, 100, 40, &place, &halve);
    assert_eq!(p.width, 4);
    assert_eq!(p.gap_height, 12);
    assert_eq!(p.pipe_gap, 25);
    assert!(p.gap_middle >= 12 && p.gap_middle < 28);
    assert_eq!(p.x_int, 10);
    assert_eq!(p.x, 10.0);
    assert!(!p.scored);
}

#[test]
fn dimensions_have_minimums() {
    let p = small_pipe(0);
    assert_eq!(p.width, 3);
    assert_eq!(p.gap_height, 6);
    assert_eq!(p.pipe_gap, 10);
}

#[test]
fn gap_is_centered_when_screen_too_short() {
    let p = small_pipe(0);
    assert_eq!(p.gap_middle, 5);
}

#[test]
fn negative_screen_size_uses_minimums() {
    let p = Pipe::new(0, -50, -7, &place, &halve);
    assert_eq!(p.width, 3);
    assert_eq!(p.gap_height, 6);
    assert_eq!(p.pipe_gap, 10);
    assert_eq!(p.gap_middle, -3);
}

#[test]
fn columns_darken_left_to_right() {
    let p = Pipe::new(10, 100, 40, &place, &halve);
    assert_eq!(pipe_color_leftmost(), Color::Rgb { r: 158, g: 227, b: 85 });
    assert_eq!(
        p.cached_colors,
        vec![
            Color::Rgb { r: 158, g: 227, b: 85 },
            Color::Rgb { r: 79, g: 113, b: 42 },
            Color::Rgb { r: 39, g: 56, b: 21 },
            Color::Rgb { r: 19, g: 28, b: 10 },
        ]
    );
}

#[test]
fn random_gap_stays_in_range_and_varies() {
    let mut seen = Vec::new();
    for _ in 0..200 {
        let p = Pipe::new(0, 60, 30, &place, &halve);
        assert!(p.gap_middle >= 9 && p.gap_middle < 21);
        if !seen.contains(&p.gap_middle) {
            seen.push(p.gap_middle);
        }
    }
    assert!(seen.len() > 1);
}

#[test]
fn off_screen_once_right_edge_passes_zero() {
    assert!(small_pipe(-4).is_off_screen());
    assert!(!small_pipe(-3).is_off_screen());
    assert!(!small_pipe(5).is_off_screen());
}

#[test]
fn spawn_when_far_enough_left() {
    assert!(small_pipe(0).should_spawn_next());
    assert!(small_pipe(10).should_spawn_next());
    assert!(!small_pipe(11).should_spawn_next());
}

#[test]
fn collision_outside_the_gap() {
    let p = small_pipe(0);
    assert!(p.check_collission(0, 2));
    assert!(!p.check_collission(0, 3));
    assert!(!p.check_collission(3, 5));
    assert!(p.check_collission(3, 8));
    assert!(p.check_collission(1, 0));
    assert!(!p.check_collission(4, 0));
    assert!(!p.check_collission(-1, 0));
}

#[test]
fn update_applies_the_step() {
    let mut p = small_pipe(7);
    p.update(&|x: f32, cols: i16| (x - cols as f32 / 4.0, (x - cols as f32 / 4.0).round() as i16));
    assert_eq!(p.x, 2.0);
    assert_eq!(p.x_int, 2);
    assert_eq!(p.width, 3);
}

#[test]
fn draw_paints_columns_outside_the_gap() {
    let p = small_pipe(0);
    let mut b = ScreenBuffer::new(20, 10);
    p.draw(&mut b);
    assert_eq!(b.get_bg_color_at(0, 0), p.cached_colors[0]);
    assert_eq!(b.get_bg_color_at(2, 1), p.cached_colors[2]);
    assert_eq!(b.get_bg_color_at(1, 8), p.cached_colors[1]);
    assert_eq!(b.get_bg_color_at(1, 2), Color::Reset);
    assert_eq!(b.get_bg_color_at(1, 7), Color::Reset);
    assert_eq!(b.get_bg_color_at(3, 0), Color::Reset);
}

#[test]
fn draw_clips_at_left_edge() {
    let p = small_pipe(-1);
    let mut b = ScreenBuffer::new(20, 10);
    p.draw(&mut b);
    assert_eq!(b.get_bg_color_at(0, 0), p.cached_colors[1]);
    assert_eq!(b.get_bg_color_at(1, 0), p.cached_colors[2]);
    assert_eq!(b.get_bg_color_at(2, 0), Color::Reset);
}

#[test]
fn draw_clips_at_right_edge() {
    let p = small_pipe(18);
    let mut b = ScreenBuffer::new(20, 10);
    p.draw(&mut b);
    assert_eq!(b.get_bg_color_at(18, 0), p.cached_colors[0]);
    assert_eq!(b.get_bg_color_at(19, 9), p.cached_colors[1]);
}

#[test]
fn draw_off_screen_pipe_draws_nothing() {
    let p = small_pipe(-5);
    let mut b = ScreenBuffer::new(20, 10);
    b.flush();
    p.draw(&mut b);
    assert_eq!(b.flush().len(), 1);
}

#[test]
fn manager_starts_with_one_pipe_at_right_edge() {
    let m: PipesManager<f32> = PipesManager::new(100, 40, &place, &halve);
    assert_eq!(m.pipes_vec.len(), 1);
    assert_eq!(m.pipes_vec[0].x_int, 96);
}

#[test]
fn manager_drops_pipe_that_left_the_screen() {
    let mut m: PipesManager<f32> = PipesManager::new(100, 40, &place, &halve);
    m.update(&|_x: f32, _c: i16| (-10.0, -10), &place, &halve);
    assert_eq!(m.pipes_vec.len(), 0);
}

#[test]
fn manager_spawns_behind_last_pipe() {
    let mut m: PipesManager<f32> = PipesManager::new(100, 40, &place, &halve);
    m.update(&|_x: f32, _c: i16| (50.0, 50), &place, &halve);
    assert_eq!(m.pipes_vec.len(), 2);
    assert_eq!(m.pipes_vec[0].x_int, 50);
    assert_eq!(m.pipes_vec[1].x_int, 79);
    assert_eq!(m.pipes_vec[1].x, 79.0);
}

#[test]
fn manager_keeps_pipe_that_has_not_moved_far() {
    let mut m: PipesManager<f32> = PipesManager::new(100, 40, &place, &halve);
    m.update(&|x: f32, _c: i16| (x - 1.0, (x - 1.0) as i16), &place, &halve);
    assert_eq!(m.pipes_vec.len(), 1);
    assert_eq!(m.pipes_vec[0].x_int, 95);
}

#[test]
fn manager_draws_every_pipe() {
    let mut m: PipesManager<f32> = PipesManager::new(20, 10, &place, &halve);
    m.update(&|_x: f32, _c: i16| (2.0, 2), &place, &halve);
    assert_eq!(m.pipes_vec.len(), 2);
    let mut b = ScreenBuffer::new(20, 10);
    m.draw(&mut b);
    assert_eq!(b.get_bg_color_at(2, 0), m.pipes_vec[0].cached_colors[0]);
    assert_eq!(b.get_bg_color_at(15, 0), m.pipes_vec[1].cached_colors[0]);
}

#[test]
fn with_gap_centres_on_the_drawn_row() {
    let p = Pipe::with_gap(10, 100, 40, 20, &place, &halve);
    assert_eq!(p.gap_middle, 20);
    assert_eq!(p.width, 4);
    assert_eq!(p.gap_height, 12);
    assert_eq!(p.pipe_gap, 25);
    assert!(p.check_collission(10, 14));
    assert!(!p.check_collission(10, 15));
    assert!(!p.check_collission(10, 25));
    assert!(p.check_collission(10, 26));
}

#[test]
fn with_gap_ignores_the_draw_on_a_short_screen() {
    let p = Pipe::with_gap(0, 20, 10, 1, &place, &halve);
    assert_eq!(p.gap_middle, 5);
}

#[test]
fn draw_pipe_at_leftmost_column_draws_nothing() {
    let p = small_pipe(i16::MIN);
    let mut b = ScreenBuffer::new(20, 10);
    b.flush();
    p.draw(&mut b);
    assert_eq!(b.flush().len(), 1);
}

#[test]
fn gap_draw_range_keeps_the_gap_on_screen() {
    assert_eq!(gap_draw_range(40), (12, 28));
    assert_eq!(gap_draw_range(30), (9, 21));
    assert_eq!(gap_draw_range(10), (6, 4));
    assert_eq!(gap_draw_range(-7), (6, -13));
}
