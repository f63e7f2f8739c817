use rustty_bird::color::{darken_ansi_value, darken_color, Color, Darkening};

fn halve(c: u8) -> u8 {
    c / 2
}

#[test]
fn ansi_bright_block_maps_to_standard_block() {
    assert_eq!(darken_ansi_value(8), 0);
    assert_eq!(darken_ansi_value(12), 4);
    assert_eq!(darken_ansi_value(15), 7);
}

#[test]
fn ansi_other_values_stay() {
    assert_eq!(darken_ansi_value(0), 0);
    assert_eq!(darken_ansi_value(7), 7);
    assert_eq!(darken_ansi_value(16), 16);
    assert_eq!(darken_ansi_value(255), 255);
}

#[test]
fn rgb_channels_go_through_the_scale() {
    let c = darken_color(Color::Rgb { r: 200, g: 101, b: 0 }, Darkening::Partial, &halve);
    assert_eq!(c, Color::Rgb { r: 100, g: 50, b: 0 });
}

#[test]
fn named_colors_darken_partially() {
    assert_eq!(darken_color(Color::Blue, Darkening::Partial, &halve), Color::DarkBlue);
    assert_eq!(darken_color(Color::Green, Darkening::Partial, &halve), Color::DarkGreen);
    assert_eq!(darken_color(Color::Cyan, Darkening::Partial, &halve), Color::DarkCyan);
    assert_eq!(darken_color(Color::Magenta, Darkening::Partial, &halve), Color::DarkMagenta);
    assert_eq!(darken_color(Color::Red, Darkening::Partial, &halve), Color::DarkRed);
    assert_eq!(darken_color(Color::Yellow, Darkening::Partial, &halve), Color::AnsiValue(3));
}

#[test]
fn dark_colors_and_reset_stay() {
    for c in [
        Color::Reset,
        Color::Black,
        Color::DarkGrey,
        Color::DarkRed,
        Color::DarkGreen,
        Color::DarkYellow,
        Color::DarkBlue,
        Color::DarkMagenta,
        Color::DarkCyan,
        Color::White,
        Color::Grey,
    ] {
        assert_eq!(darken_color(c, Darkening::Partial, &halve), c);
    }
}

#[test]
fn ansi_colors_darken_partially_through_their_index() {
    assert_eq!(darken_color(Color::AnsiValue(9), Darkening::Partial, &halve), Color::AnsiValue(1));
    assert_eq!(darken_color(Color::AnsiValue(100), Darkening::Partial, &halve), Color::AnsiValue(100));
}

#[test]
fn darkening_a_named_color_twice_is_darkening_it_once() {
    for c in [Color::Blue, Color::Yellow, Color::AnsiValue(14), Color::Grey] {
        let once = darken_color(c, Darkening::Partial, &halve);
        assert_eq!(darken_color(once, Darkening::Partial, &halve), once);
    }
}

#[test]
fn float_factor_scaling_as_the_game_uses_it() {
    let scale = |c: u8| (c as f32 * 0.82f32.clamp(0.0, 1.0)).round() as u8;
    let c = darken_color(Color::Rgb { r: 158, g: 227, b: 85 }, Darkening::Partial, &scale);
    assert_eq!(c, Color::Rgb { r: 130, g: 186, b: 70 });
}

const ALL_KINDS: [Color; 8] = [
    Color::Reset,
    Color::Blue,
    Color::Yellow,
    Color::DarkGrey,
    Color::White,
    Color::AnsiValue(12),
    Color::AnsiValue(200),
    Color::Rgb { r: 10, g: 200, b: 255 },
];

#[test]
fn factor_one_changes_nothing() {
    for c in ALL_KINDS {
        assert_eq!(darken_color(c, Darkening::Unchanged, &halve), c);
    }
}

#[test]
fn factor_zero_is_black() {
    for c in ALL_KINDS {
        let expected = match c {
            Color::Rgb { .. } => Color::Rgb { r: 0, g: 0, b: 0 },
            _ => Color::Black,
        };
        assert_eq!(darken_color(c, Darkening::ToBlack, &halve), expected);
    }
}
