use rustty_bird::bird::{bird_column, draw_bird, BIRD_X_REL_POS, SPRITE_CELL_WIDTH};
use rustty_bird::color::Color;
use rustty_bird::game::{key_action, Game, Key, KeyAction};
use rustty_bird::scoring_system::ScoringSystem;
use rustty_bird::screen_buffer::{ScreenBuffer, TermCommand};

fn place(x: i16) -> f32 {
    x as f32
}

fn halve(c: u8) -> u8 {
    c / 2
}

fn plain_sky(_y: u16, _h: u16, c: u8) -> u8 {
    c
}

fn left_by_one(x: f32, _cols: i16) -> (f32, i16) {
    (x - 1.0, (x - 1.0).round() as i16)
}

fn printed(cmds: &[TermCommand]) -> String {
    cmds.iter()
        .filter_map(|c| match c {
            TermCommand::Print(ch) => Some(*ch),
            _ => None,
        })
        .collect()
}

#[test]
fn quit_keys() {
    assert_eq!(key_action(Key::Char('c'), true), KeyAction::Quit);
    assert_eq!(key_action(Key::Esc, false), KeyAction::Quit);
    assert_eq!(key_action(Key::Char('q'), false), KeyAction::Quit);
    assert_eq!(key_action(Key::Char('q'), true), KeyAction::Quit);
}

#[test]
fn jump_keys() {
    assert_eq!(key_action(Key::Enter, false), KeyAction::Jump);
    assert_eq!(key_action(Key::Char(' '), false), KeyAction::Jump);
    assert_eq!(key_action(Key::Char(' '), true), KeyAction::Jump);
}

#[test]
fn other_keys_are_ignored() {
    assert_eq!(key_action(Key::Char('c'), false), KeyAction::Ignore);
    assert_eq!(key_action(Key::Char('x'), true), KeyAction::Ignore);
    assert_eq!(key_action(Key::Other, true), KeyAction::Ignore);
}

#[test]
fn bird_column_is_a_fifth_of_the_width() {
    assert_eq!(BIRD_X_REL_POS, 20);
    assert_eq!(bird_column(100), 20);
    assert_eq!(bird_column(80), 16);
    assert_eq!(bird_column(7), 1);
    assert_eq!(bird_column(-7), -1);
}

#[test]
fn bird_sprite_is_three_cells() {
    assert_eq!(SPRITE_CELL_WIDTH, 3);
    let mut b = ScreenBuffer::new(10, 3);
    b.set(2, 1, ' ', Color::Reset, Color::Blue);
    b.flush();
    draw_bird(&mut b, 2, 1);
    assert_eq!(b.get_bg_color_at(2, 1), Color::Blue);
    assert_eq!(b.get_bg_color_at(3, 1), Color::Rgb { r: 255, g: 69, b: 0 });
    assert_eq!(b.get_bg_color_at(4, 1), Color::Blue);
    let cmds = b.flush();
    assert_eq!(printed(&cmds), "\u{2584}\u{2584}\u{2580}");
    assert!(cmds.contains(&TermCommand::SetForegroundColor(Color::Rgb { r: 255, g: 215, b: 0 })));
    assert!(cmds.contains(&TermCommand::SetForegroundColor(Color::Rgb { r: 255, g: 140, b: 0 })));
}

#[test]
fn bird_off_the_top_takes_the_sky() {
    let mut b = ScreenBuffer::new(10, 3);
    draw_bird(&mut b, 8, -1);
    b.flush();
    draw_bird(&mut b, 8, 0);
    assert_eq!(b.get_bg_color_at(8, 0), Color::Reset);
    assert_eq!(b.get_bg_color_at(9, 0), Color::Rgb { r: 255, g: 69, b: 0 });
    let cmds = b.flush();
    assert_eq!(printed(&cmds), "\u{2584}\u{2584}");
}

#[test]
fn score_starts_at_zero_and_counts() {
    let mut s = ScoringSystem::new();
    assert_eq!(s.score, 0);
    s.increment_score();
    s.increment_score();
    assert_eq!(s.score, 2);
}

#[test]
fn score_board_text() {
    let mut s = ScoringSystem::new();
    let mut b = ScreenBuffer::new(30, 3);
    assert!(s.draw_score_board(&mut b).unwrap());
    assert_eq!(printed(&b.flush()), " SCORE: 0 ");
    for _ in 0..12 {
        s.increment_score();
    }
    s.draw_score_board(&mut b).unwrap();
    assert_eq!(printed(&b.flush()), "12 ");
    assert_eq!(b.get_bg_color_at(1, 1), Color::Black);
    assert_eq!(b.get_bg_color_at(0, 1), Color::Reset);
}

#[test]
fn score_board_largest_score() {
    let s = ScoringSystem { score: u32::MAX };
    let mut b = ScreenBuffer::new(30, 3);
    s.draw_score_board(&mut b).unwrap();
    assert_eq!(printed(&b.flush()), " SCORE: 4294967295 ");
}

#[test]
fn score_board_is_cut_at_screen_edge() {
    let s = ScoringSystem::new();
    let mut b = ScreenBuffer::new(5, 2);
    s.draw_score_board(&mut b).unwrap();
    assert_eq!(printed(&b.flush()), " SCO");
}

#[test]
fn new_game() {
    let g: Game<f32> = Game::new(100, 40, &place, &halve);
    assert_eq!(g.bird_x, 20);
    assert_eq!(g.scoring_system.score, 0);
    assert_eq!(g.pipes_manager.pipes_vec.len(), 1);
    assert_eq!(g.pipes_manager.pipes_vec[0].x_int, 96);
}

#[test]
fn bird_hits_a_pipe_outside_the_gap() {
    let mut g: Game<f32> = Game::new(100, 40, &place, &halve);
    g.pipes_manager.pipes_vec[0].x_int = 19;
    g.pipes_manager.pipes_vec[0].gap_middle = 20;
    assert!(g.has_bird_collided(5));
    assert!(g.has_bird_collided(14));
    assert!(!g.has_bird_collided(15));
    assert!(!g.has_bird_collided(25));
    assert!(g.has_bird_collided(26));
}

#[test]
fn bird_misses_a_pipe_far_away() {
    let mut g: Game<f32> = Game::new(100, 40, &place, &halve);
    assert!(!g.has_bird_collided(5));
    g.pipes_manager.pipes_vec[0].x_int = 23;
    assert!(!g.has_bird_collided(5));
    g.pipes_manager.pipes_vec[0].x_int = 22;
    assert!(g.has_bird_collided(5));
    g.pipes_manager.pipes_vec[0].x_int = 15;
    assert!(!g.has_bird_collided(5));
    g.pipes_manager.pipes_vec[0].x_int = 16;
    assert!(g.has_bird_collided(5));
}

#[test]
fn passing_a_pipe_counts_once() {
    let mut g: Game<f32> = Game::new(100, 40, &place, &halve);
    g.pipes_manager.pipes_vec[0].x_int = 16;
    assert!(!g.did_bird_passthrough());
    g.pipes_manager.pipes_vec[0].x_int = 10;
    assert!(g.did_bird_passthrough());
    assert!(g.pipes_manager.pipes_vec[0].scored);
    assert!(!g.did_bird_passthrough());
}

#[test]
fn advance_moves_pipes_and_draws() {
    let mut g: Game<f32> = Game::new(100, 40, &place, &halve);
    g.buffer.flush();
    let r = g.advance(20, &left_by_one, &place, &halve, &plain_sky);
    assert!(r.unwrap());
    assert_eq!(g.pipes_manager.pipes_vec[0].x_int, 95);
    assert_eq!(g.scoring_system.score, 0);
    assert_eq!(g.buffer.get_bg_color_at(50, 30), Color::Rgb { r: 135, g: 206, b: 250 });
    assert_eq!(g.buffer.get_bg_color_at(21, 20), Color::Rgb { r: 255, g: 69, b: 0 });
    assert_eq!(g.buffer.get_bg_color_at(1, 1), Color::Black);
    assert_eq!(g.buffer.get_bg_color_at(95, 0), Color::Rgb { r: 158, g: 227, b: 85 });
    let cmds = g.buffer.flush();
    assert!(printed(&cmds).contains("SCORE: 0"));
}

#[test]
fn advance_scores_a_passed_pipe() {
    let mut g: Game<f32> = Game::new(100, 40, &place, &halve);
    g.pipes_manager.pipes_vec[0].x_int = 16;
    g.pipes_manager.pipes_vec[0].x = 16.0;
    g.advance(20, &left_by_one, &place, &halve, &plain_sky).unwrap();
    assert_eq!(g.scoring_system.score, 1);
    g.advance(20, &left_by_one, &place, &halve, &plain_sky).unwrap();
    assert_eq!(g.scoring_system.score, 1);
    assert_eq!(g.pipes_manager.pipes_vec.len(), 3);
    assert_eq!(g.pipes_manager.pipes_vec[1].x_int, 43);
    assert_eq!(g.pipes_manager.pipes_vec[2].x_int, 72);
    assert!(g.pipes_manager.pipes_vec[0].scored);
    assert!(!g.pipes_manager.pipes_vec[1].scored);
    assert!(!g.pipes_manager.pipes_vec[2].scored);
}
