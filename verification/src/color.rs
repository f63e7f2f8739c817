use vstd::prelude::*;

verus! {

/// A terminal color, with the same variants as the terminal backend's palette:
/// the sixteen named colors, `Reset`, 24-bit `Rgb` and 8-bit `AnsiValue`.
#[derive(Clone, Copy, Debug, PartialEq, Eq, Structural)]
pub enum Color {
    Reset,
    Black,
    DarkGrey,
    Red,
    DarkRed,
    Green,
    DarkGreen,
    Yellow,
    DarkYellow,
    Blue,
    DarkBlue,
    Magenta,
    DarkMagenta,
    Cyan,
    DarkCyan,
    White,
    Grey,
    Rgb { r: u8, g: u8, b: u8 },
    AnsiValue(u8),
}

/// The darker counterpart of an 8-bit ANSI palette index: the bright block
/// 8..=15 maps onto the standard block 0..=7, every other index stays.
pub open spec fn darker_ansi(val: u8) -> u8 {
    if 8 <= val <= 15 { (val - 8) as u8 } else { val }
}

/// What darkening does to every color that is not `Rgb`.
pub open spec fn darker_non_rgb(color: Color) -> Color {
    match color {
        Color::AnsiValue(v) => Color::AnsiValue(darker_ansi(v)),
        Color::Blue => Color::DarkBlue,
        Color::Green => Color::DarkGreen,
        Color::Cyan => Color::DarkCyan,
        Color::Magenta => Color::DarkMagenta,
        Color::Red => Color::DarkRed,
        Color::Yellow => Color::AnsiValue(3),
        other => other,
    }
}

/// How far a color is darkened: by a brightness factor of 1 (not at all),
/// of 0 (to black), or of something in between.
#[derive(Clone, Copy, Debug, PartialEq, Eq, Structural)]
pub enum Darkening {
    /// Factor 1: the color stays as it is.
    Unchanged,
    /// A factor strictly between 0 and 1.
    Partial,
    /// Factor 0: the color becomes black.
    ToBlack,
}

/// `darkened` is what `darken_color` may return for `color` darkened by
/// `amount`, each RGB channel being scaled by `scale` when the darkening is
/// partial.
pub open spec fn darkened<F: Fn(u8) -> u8>(color: Color, amount: Darkening, scale: F, result: Color) -> bool {
    match amount {
        Darkening::Unchanged => result == color,
        Darkening::ToBlack => result == if color is Rgb {
            Color::Rgb { r: 0, g: 0, b: 0 }
        } else {
            Color::Black
        },
        Darkening::Partial => match color {
            Color::Rgb { r, g, b } => match result {
                Color::Rgb { r: r2, g: g2, b: b2 } => scale.ensures((r,), r2) && scale.ensures((g,), g2)
                    && scale.ensures((b,), b2),
                _ => false,
            },
            _ => result == darker_non_rgb(color),
        },
    }
}

/// Darkens an 8-bit ANSI palette index.
pub fn darken_ansi_value(val: u8) -> (r: u8)
    ensures
        r == darker_ansi(val),
{
    if val >= 8 && val <= 15 {
        val - 8
    } else {
        val
    }
}

/// Darkens a color by `amount`. Unchanged, every color stays as it is; to
/// black, every color becomes black (an `Rgb` color all zero). Partially, an
/// `Rgb` color has each channel passed through `scale` (the caller's
/// brightness factor, applied channel by channel); named colors map to their
/// dark counterparts, bright ANSI indices to standard ones, and the rest are
/// already dark and stay as they are.
pub fn darken_color<F: Fn(u8) -> u8>(color: Color, amount: Darkening, scale: &F) -> (r: Color)
    requires
        forall|c: u8| scale.requires((c,)),
    ensures
        darkened(color, amount, *scale, r),
{
    match amount {
        Darkening::Unchanged => {
            return color;
        },
        Darkening::ToBlack => {
            return match color {
                Color::Rgb { .. } => Color::Rgb { r: 0, g: 0, b: 0 },
                _ => Color::Black,
            };
        },
        Darkening::Partial => {},
    }
    match color {
        Color::Rgb { r, g, b } => {
            let r2 = scale(r);
            let g2 = scale(g);
            let b2 = scale(b);
            Color::Rgb { r: r2, g: g2, b: b2 }
        },
        Color::AnsiValue(val) => Color::AnsiValue(darken_ansi_value(val)),
        Color::Blue => Color::DarkBlue,
        Color::Green => Color::DarkGreen,
        Color::Cyan => Color::DarkCyan,
        Color::Magenta => Color::DarkMagenta,
        Color::Red => Color::DarkRed,
        Color::Yellow => Color::AnsiValue(3),
        other => other,
    }
}

/// Darkening a color that is not `Rgb` a second time changes nothing: the
/// dark colors, grays and `Reset` stay as they are, and so do the standard
/// ANSI indices that the bright ones map onto.
pub proof fn lemma_darken_non_rgb_idempotent(color: Color)
    requires
        !(color is Rgb),
    ensures
        darker_non_rgb(darker_non_rgb(color)) == darker_non_rgb(color),
        !(darker_non_rgb(color) is Rgb),
{
}

/// Darkening an ANSI index a second time changes nothing.
pub proof fn lemma_darken_ansi_idempotent(val: u8)
    ensures
        darker_ansi(darker_ansi(val)) == darker_ansi(val),
        darker_ansi(val) <= val,
{
}

} // verus!
