use vstd::prelude::*;

use crate::cell::Cell;
use crate::color::Color;
use crate::screen_buffer::{lemma_with_cell_at, lemma_with_cell_shape, ScreenBuffer, ScreenView};

verus! {

/// The I/O error type of std, carried through the drawing functions' results.
#[verifier::external_type_specification]
#[verifier::external_body]
pub struct ExIoError(std::io::Error);

/// The character of decimal digit `d`.
pub open spec fn digit_char(d: nat) -> char {
    (48 + d) as char
}

/// `n` written in decimal, without sign or leading zeros.
pub open spec fn decimal(n: nat) -> Seq<char>
    decreases n,
{
    if n < 10 {
        seq![digit_char(n)]
    } else {
        decimal(n / 10).push(digit_char(n % 10))
    }
}

/// The text of the score board for `score`.
pub open spec fn score_text(score: u32) -> Seq<char> {
    seq![' ', 'S', 'C', 'O', 'R', 'E', ':', ' '] + decimal(score as nat) + seq![' ']
}

/// The screen after `text` is written from column `x` of row `y`, one cell
/// per character, left to right.
pub open spec fn write_text(v: ScreenView, x: i16, y: i16, text: Seq<char>, fg: Color, bg: Color) -> ScreenView
    decreases text.len(),
{
    if text.len() == 0 {
        v
    } else {
        write_text(v, x, y, text.drop_last(), fg, bg).with_cell(
            (x + text.len() - 1) as i16,
            y,
            Cell { ch: text.last(), fg, bg },
        )
    }
}

/// The character of decimal digit `d`.
fn digit(d: u32) -> (c: char)
    requires
        d < 10,
    ensures
        c == digit_char(d as nat),
{
    match d {
        0 => '0',
        1 => '1',
        2 => '2',
        3 => '3',
        4 => '4',
        5 => '5',
        6 => '6',
        7 => '7',
        8 => '8',
        _ => '9',
    }
}

/// `n` in decimal digits, most significant first.
fn decimal_digits(n: u32) -> (v: Vec<char>)
    ensures
        v@ == decimal(n as nat),
{
    let mut v: Vec<char> = Vec::new();
    let mut m = n;
    while m >= 10
        invariant
            decimal(n as nat) == decimal(m as nat) + v@,
        decreases m,
    {
        let ghost rest = v@;
        let d = digit(m % 10);
        v.insert(0, d);
        proof {
            assert(decimal(m as nat) == decimal((m / 10) as nat).push(d));
            assert(decimal((m / 10) as nat).push(d) + rest =~= decimal((m / 10) as nat) + v@);
        }
        m = m / 10;
    }
    let ghost rest = v@;
    let d = digit(m);
    v.insert(0, d);
    proof {
        assert(decimal(m as nat) == seq![d]);
        assert(seq![d] + rest =~= v@);
    }
    v
}

/// The score board's text for `score`.
fn score_board_text(score: u32) -> (v: Vec<char>)
    ensures
        v@ == score_text(score),
{
    let mut v: Vec<char> = Vec::new();
    v.push(' ');
    v.push('S');
    v.push('C');
    v.push('O');
    v.push('R');
    v.push('E');
    v.push(':');
    v.push(' ');
    let mut digits = decimal_digits(score);
    v.append(&mut digits);
    v.push(' ');
    assert(v@ =~= score_text(score));
    v
}

/// The player's score: the number of pipes the bird has flown past.
pub struct ScoringSystem {
    pub score: u32,
}

impl ScoringSystem {
    /// A score of zero.
    pub fn new() -> (s: Self)
        ensures
            s.score == 0,
    {
        let score: u32 = 0;
        Self { score }
    }

    /// Adds one point.
    pub fn increment_score(&mut self)
        requires
            old(self).score < u32::MAX,
        ensures
            final(self).score == old(self).score + 1,
    {
        self.score += 1;
    }

    fn draw_text(start_x: i16, y: i16, text: &Vec<char>, fg: Color, bg: Color, buffer: &mut ScreenBuffer)
        requires
            old(buffer).wf(),
            text@.len() <= i16::MAX,
            start_x + text@.len() <= i16::MAX + 1,
        ensures
            final(buffer).wf(),
            final(buffer)@ == write_text(old(buffer)@, start_x, y, text@, fg, bg),
    {
        let n = text.len();
        let mut i: usize = 0;
        while i < n
            invariant
                n == text@.len(),
                0 <= i <= n,
                text@.len() <= i16::MAX,
                start_x + text@.len() <= i16::MAX + 1,
                buffer.wf(),
                buffer@ == write_text(old(buffer)@, start_x, y, text@.subrange(0, i as int), fg, bg),
            decreases n - i,
        {
            let ch = text[i];
            buffer.set(start_x + i as i16, y, ch, fg, bg);
            proof {
                let s = text@.subrange(0, i + 1);
                assert(s.drop_last() =~= text@.subrange(0, i as int));
            }
            i = i + 1;
        }
        proof {
            assert(text@.subrange(0, n as int) =~= text@);
        }
    }

    /// Writes ` SCORE: <n> ` in white on black from column 1 of row 1.
    pub fn draw_score_board(&self, buffer: &mut ScreenBuffer) -> (r: std::io::Result<bool>)
        requires
            old(buffer).wf(),
        ensures
            final(buffer).wf(),
            final(buffer)@ == write_text(old(buffer)@, 1, 1, score_text(self.score), Color::White, Color::Black),
            r matches Ok(b) && b,
    {
        let score_string = score_board_text(self.score);
        proof {
            lemma_decimal_len(self.score as nat);
        }
        Self::draw_text(1, 1, &score_string, Color::White, Color::Black, buffer);
        Ok(true)
    }
}

/// Writing text keeps the buffer's size and the frame the terminal shows.
pub proof fn lemma_write_text_shape(v: ScreenView, x0: i16, y0: i16, text: Seq<char>, fg: Color, bg: Color)
    requires
        v.wf(),
    ensures
        write_text(v, x0, y0, text, fg, bg).wf(),
        write_text(v, x0, y0, text, fg, bg).width == v.width,
        write_text(v, x0, y0, text, fg, bg).height == v.height,
        write_text(v, x0, y0, text, fg, bg).current == v.current,
    decreases text.len(),
{
    if text.len() > 0 {
        lemma_write_text_shape(v, x0, y0, text.drop_last(), fg, bg);
        lemma_with_cell_shape(
            write_text(v, x0, y0, text.drop_last(), fg, bg),
            (x0 + text.len() - 1) as i16,
            y0,
            Cell { ch: text.last(), fg, bg },
        );
    }
}

/// Writing text changes exactly the cells it covers on the screen: the
/// character at offset `i` lands in column `x0 + i` of row `y0`.
pub proof fn lemma_write_text_at(
    v: ScreenView,
    x0: i16,
    y0: i16,
    text: Seq<char>,
    fg: Color,
    bg: Color,
    x: int,
    y: int,
)
    requires
        v.wf(),
        x0 + text.len() <= i16::MAX + 1,
        0 <= x < v.width,
        0 <= y < v.height,
    ensures
        write_text(v, x0, y0, text, fg, bg).wf(),
        write_text(v, x0, y0, text, fg, bg).width == v.width,
        write_text(v, x0, y0, text, fg, bg).height == v.height,
        write_text(v, x0, y0, text, fg, bg).current == v.current,
        write_text(v, x0, y0, text, fg, bg).next[v.index(x, y)] == if y == y0 && x0 <= x < x0 + text.len()
            && v.on_screen(x, y) {
            Cell { ch: text[x - x0], fg, bg }
        } else {
            v.next[v.index(x, y)]
        },
    decreases text.len(),
{
    if text.len() > 0 {
        let prefix = text.drop_last();
        lemma_write_text_at(v, x0, y0, prefix, fg, bg, x, y);
        let w = write_text(v, x0, y0, prefix, fg, bg);
        let xl = (x0 + text.len() - 1) as i16;
        lemma_with_cell_at(w, xl, y0, Cell { ch: text.last(), fg, bg }, x, y);
    }
}

/// A number below 10^10 has at most ten decimal digits.
pub proof fn lemma_decimal_len(n: nat)
    requires
        n < 10000000000,
    ensures
        1 <= decimal(n).len() <= 10,
{
    reveal_with_fuel(pow10, 11);
    lemma_decimal_len_bound(n, 10);
}

proof fn lemma_decimal_len_bound(n: nat, k: nat)
    requires
        1 <= k,
        n < pow10(k),
    ensures
        1 <= decimal(n).len() <= k,
    decreases n,
{
    if n >= 10 {
        reveal_with_fuel(pow10, 2);
        assert(k >= 2);
        assert(pow10(k) == 10 * pow10((k - 1) as nat));
        lemma_decimal_len_bound(n / 10, (k - 1) as nat);
    }
}

/// Ten to the power `k`.
pub open spec fn pow10(k: nat) -> nat
    decreases k,
{
    if k == 0 { 1 } else { 10 * pow10((k - 1) as nat) }
}

} // verus!
