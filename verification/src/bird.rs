use vstd::prelude::*;

use crate::cell::Cell;
use crate::color::Color;
use crate::pipe::trunc_div;
use crate::screen_buffer::{ScreenBuffer, ScreenView};

verus! {

/// The bird flies at this percentage of the screen's width from the left.
pub const BIRD_X_REL_POS: i16 = 20;

/// The bird's sprite is this many cells wide.
pub const SPRITE_CELL_WIDTH: i16 = 3;

/// The bird's body: gold.
pub open spec fn body_color() -> Color {
    Color::Rgb { r: 255, g: 215, b: 0 }
}

/// The bird's wing: red-orange.
pub open spec fn wing_color() -> Color {
    Color::Rgb { r: 255, g: 69, b: 0 }
}

/// The bird's beak: dark orange.
pub open spec fn beak_color() -> Color {
    Color::Rgb { r: 255, g: 140, b: 0 }
}

/// The lower half block, `▄`.
pub open spec fn lower_half() -> char {
    '\u{2584}'
}

/// The upper half block, `▀`.
pub open spec fn upper_half() -> char {
    '\u{2580}'
}

/// The column the bird flies at on a screen `cols` wide.
pub open spec fn bird_column_for(cols: int) -> int {
    trunc_div(cols * BIRD_X_REL_POS, 100)
}

/// The screen after the bird's sprite is drawn with its left cell at
/// `(x, y)`: the body over the sky, the wing over the body, the beak over
/// the sky, the sky being the background found at `(x, y)` before.
pub open spec fn with_bird(v: ScreenView, x: i16, y: i16) -> ScreenView {
    let sky = v.bg_at(x, y);
    v.with_cell(x, y, Cell { ch: lower_half(), fg: body_color(), bg: sky })
        .with_cell((x + 1) as i16, y, Cell { ch: lower_half(), fg: body_color(), bg: wing_color() })
        .with_cell((x + 2) as i16, y, Cell { ch: upper_half(), fg: beak_color(), bg: sky })
}

/// The column the bird flies at on a screen `screen_cols` wide.
pub fn bird_column(screen_cols: i16) -> (x: i16)
    requires
        i16::MIN <= screen_cols * BIRD_X_REL_POS <= i16::MAX,
    ensures
        x == bird_column_for(screen_cols as int),
{
    screen_cols * BIRD_X_REL_POS / 100
}

/// Draws the bird's three-cell sprite with its left cell at `(base_x, base_y)`.
pub fn draw_bird(buffer: &mut ScreenBuffer, base_x: i16, base_y: i16)
    requires
        old(buffer).wf(),
        base_x + 2 <= i16::MAX,
    ensures
        final(buffer).wf(),
        final(buffer)@ == with_bird(old(buffer)@, base_x, base_y),
{
    let sky_color = buffer.get_bg_color_at(base_x, base_y);
    buffer.set(base_x, base_y, '\u{2584}', Color::Rgb { r: 255, g: 215, b: 0 }, sky_color);
    buffer.set(
        base_x + 1,
        base_y,
        '\u{2584}',
        Color::Rgb { r: 255, g: 215, b: 0 },
        Color::Rgb { r: 255, g: 69, b: 0 },
    );
    buffer.set(base_x + 2, base_y, '\u{2580}', Color::Rgb { r: 255, g: 140, b: 0 }, sky_color);
}

} // verus!
