use rustty_bird::cell::Cell;
use rustty_bird::color::Color;
use rustty_bird::screen_buffer::{sky_color, ScreenBuffer, TermCommand};

const SKY: Color = Color::Rgb { r: 135, g: 206, b: 250 };

#[test]
fn cell_default_is_blank() {
    let c = Cell::default();
    assert_eq!(c, Cell { ch: ' ', fg: Color::Reset, bg: Color::Reset });
}

#[test]
fn sky_color_value() {
    assert_eq!(sky_color(), SKY);
}

#[test]
fn new_buffer_is_blank() {
    let b = ScreenBuffer::new(4, 3);
    for y in 0..3 {
        for x in 0..4 {
            assert_eq!(b.get_bg_color_at(x, y), Color::Reset);
        }
    }
}

#[test]
fn off_screen_background_is_sky() {
    let b = ScreenBuffer::new(4, 3);
    assert_eq!(b.get_bg_color_at(4, 0), SKY);
    assert_eq!(b.get_bg_color_at(0, 3), SKY);
    assert_eq!(b.get_bg_color_at(-1, 0), SKY);
    assert_eq!(b.get_bg_color_at(0, -1), SKY);
}

#[test]
fn set_then_read_background() {
    let mut b = ScreenBuffer::new(4, 3);
    b.set(1, 2, 'x', Color::White, Color::Black);
    assert_eq!(b.get_bg_color_at(1, 2), Color::Black);
    assert_eq!(b.get_bg_color_at(2, 1), Color::Reset);
    assert_eq!(b.get_bg_color_at(0, 2), Color::Reset);
}

#[test]
fn set_off_screen_is_ignored() {
    let mut b = ScreenBuffer::new(4, 3);
    b.set(4, 0, 'x', Color::White, Color::Black);
    b.set(-1, 1, 'x', Color::White, Color::Black);
    assert_eq!(b.flush(), vec![TermCommand::ResetColor]);
}

#[test]
fn width_beyond_i16_keeps_every_position_off_screen() {
    let mut b = ScreenBuffer::new(40000, 1);
    b.set(5, 0, 'x', Color::White, Color::Black);
    assert_eq!(b.get_bg_color_at(5, 0), SKY);
    assert_eq!(b.flush(), vec![TermCommand::ResetColor]);
}

#[test]
fn flush_sends_changed_cells() {
    let mut b = ScreenBuffer::new(4, 3);
    b.set(1, 1, 'x', Color::White, Color::Black);
    b.set(2, 1, 'y', Color::White, Color::Black);
    b.set(0, 2, 'z', Color::Red, Color::Black);
    let cmds = b.flush();
    assert_eq!(
        cmds,
        vec![
            TermCommand::ResetColor,
            TermCommand::MoveTo(1, 1),
            TermCommand::SetBackgroundColor(Color::Black),
            TermCommand::SetForegroundColor(Color::White),
            TermCommand::Print('x'),
            TermCommand::MoveTo(2, 1),
            TermCommand::Print('y'),
            TermCommand::MoveTo(0, 2),
            TermCommand::SetForegroundColor(Color::Red),
            TermCommand::Print('z'),
        ]
    );
}

#[test]
fn second_flush_sends_only_reset() {
    let mut b = ScreenBuffer::new(4, 3);
    b.set(3, 0, 'q', Color::Blue, Color::Green);
    let first = b.flush();
    assert_eq!(first.len(), 5);
    assert_eq!(b.flush(), vec![TermCommand::ResetColor]);
}

#[test]
fn unchanged_cell_is_not_sent_again() {
    let mut b = ScreenBuffer::new(4, 3);
    b.set(3, 0, 'q', Color::Blue, Color::Green);
    b.flush();
    b.set(3, 0, 'q', Color::Blue, Color::Green);
    b.set(0, 0, 'r', Color::Blue, Color::Green);
    assert_eq!(
        b.flush(),
        vec![
            TermCommand::ResetColor,
            TermCommand::MoveTo(0, 0),
            TermCommand::SetBackgroundColor(Color::Green),
            TermCommand::SetForegroundColor(Color::Blue),
            TermCommand::Print('r'),
        ]
    );
}

#[test]
fn clear_next_paints_each_row() {
    let mut b = ScreenBuffer::new(3, 4);
    b.clear_next(&|y: u16, _h: u16, c: u8| c / (y as u8 + 1));
    assert_eq!(b.get_bg_color_at(0, 0), SKY);
    assert_eq!(b.get_bg_color_at(2, 1), Color::Rgb { r: 67, g: 103, b: 125 });
    assert_eq!(b.get_bg_color_at(1, 3), Color::Rgb { r: 33, g: 51, b: 62 });
    let cmds = b.flush();
    assert_eq!(cmds.iter().filter(|c| matches!(c, TermCommand::Print(' '))).count(), 12);
}

#[test]
fn clear_next_with_the_game_gradient() {
    let mut b = ScreenBuffer::new(2, 10);
    b.clear_next(&|y: u16, h: u16, c: u8| {
        let factor = (1.0 - (y as f32 / h as f32) * 0.3).clamp(0.0, 1.0);
        (c as f32 * factor).round() as u8
    });
    assert_eq!(b.get_bg_color_at(0, 0), SKY);
    assert_eq!(b.get_bg_color_at(1, 5), Color::Rgb { r: 115, g: 175, b: 213 });
}
