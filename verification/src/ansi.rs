//! The characters that make a terminal do something.
//!
//! Nothing here touches the terminal itself. Every function appends
//! characters to a buffer and says exactly which; the caller writes the
//! buffer out.

use vstd::prelude::*;
use crate::torus::{Pos, TERM_WIN_SIZE};

verus! {

/// The character of the decimal digit `d`.
pub open spec fn digit(d: int) -> char {
    ((48 + d) as u8) as char
}

/// The decimal digits of `n`, most significant first, without leading zeros.
pub open spec fn digits(n: nat) -> Seq<char>
    decreases n,
{
    if n < 10 {
        seq![digit(n as int)]
    } else {
        digits(n / 10).push(digit((n % 10) as int))
    }
}

/// `n` in decimal, with a minus sign in front of a negative number.
pub open spec fn decimal(n: int) -> Seq<char> {
    if n < 0 {
        seq!['-'] + digits((-n) as nat)
    } else {
        digits(n as nat)
    }
}

/// The sequence that clears the whole screen.
pub open spec fn clear_screen_text() -> Seq<char> {
    "\x1b[2J"@
}

/// The sequence that hides the cursor.
pub open spec fn hide_cursor_text() -> Seq<char> {
    "\x1b[?25l"@
}

/// The sequence that moves the cursor to `(row, col)`, both counted from
/// zero. The terminal counts from one, and a cell is two columns wide.
pub open spec fn cursor_text(row: int, col: int) -> Seq<char> {
    "\x1b["@ + decimal(row + 1) + ";"@ + decimal(col * 2 + 1) + "H"@
}

/// A live cell: two spaces on a cyan background, then the colours reset.
pub open spec fn live_glyph() -> Seq<char> {
    "\x1b[46m  \x1b[0m"@
}

/// A dead cell: two spaces.
pub open spec fn dead_glyph() -> Seq<char> {
    "  "@
}

/// `count` times the character `c`.
pub open spec fn run_of(c: char, count: int) -> Seq<char> {
    Seq::new(count as nat, |i: int| c)
}

/// One line of the border: a corner or an edge, the inside of the window,
/// the same again, and a line feed.
pub open spec fn frame_line(left: char, fill: char, right: char) -> Seq<char> {
    seq![left] + run_of(fill, TERM_WIN_SIZE * 2) + seq![right, '\n']
}

/// `count` times the line `line`.
pub open spec fn lines_of(line: Seq<char>, count: nat) -> Seq<char>
    decreases count,
{
    if count == 0 {
        Seq::empty()
    } else {
        lines_of(line, (count - 1) as nat) + line
    }
}

/// The border round the window, drawn from the upper left corner of the
/// screen: `TERM_WIN_SIZE * 2 + 2` columns wide and `TERM_WIN_SIZE + 1`
/// lines high.
pub open spec fn frame_text() -> Seq<char> {
    cursor_text(0, 0) + frame_line('┌', '─', '┐') + lines_of(
        frame_line('│', ' ', '│'),
        (TERM_WIN_SIZE - 1) as nat,
    ) + frame_line('└', '─', '┘')
}

/// Appends the characters of `text`.
fn push_text(text: &str, out: &mut Vec<char>)
    ensures
        final(out)@ == old(out)@ + text@,
{
    let len: usize = text.unicode_len();
    let mut i: usize = 0;
    while i < len
        invariant
            i <= len == text@.len(),
            out@ == old(out)@ + text@.take(i as int),
        decreases len - i,
    {
        out.push(text.get_char(i));
        i += 1;
    }
}

/// Appends the decimal digits of `n`.
fn push_digits(n: u64, out: &mut Vec<char>)
    ensures
        final(out)@ == old(out)@ + digits(n as nat),
    decreases n,
{
    if n >= 10 {
        push_digits(n / 10, out);
    }
    let d: u8 = (n % 10) as u8;
    out.push((48u8 + d) as char);
}

/// Appends `n` in decimal.
pub fn push_decimal(n: i64, out: &mut Vec<char>)
    ensures
        final(out)@ == old(out)@ + decimal(n as int),
{
    if n < 0 {
        out.push('-');
        push_digits((-(n as i128)) as u64, out);
    } else {
        push_digits(n as u64, out);
    }
}

/// Appends the sequence that clears the whole screen.
pub fn clear_screen(out: &mut Vec<char>)
    ensures
        final(out)@ == old(out)@ + clear_screen_text(),
{
    push_text("\x1b[2J", out);
}

/// Appends the sequence that hides the cursor.
pub fn hide_cursor(out: &mut Vec<char>)
    ensures
        final(out)@ == old(out)@ + hide_cursor_text(),
{
    push_text("\x1b[?25l", out);
}

/// Appends the sequence that moves the cursor to `(row, col)`. The numbers
/// are wide enough for every cell, and for the cell inside the border that
/// stands for it.
pub(crate) fn cursor_at(row: i64, col: i64, out: &mut Vec<char>)
    requires
        i32::MIN <= row <= i32::MAX + 1,
        i32::MIN <= col <= i32::MAX + 1,
    ensures
        final(out)@ == old(out)@ + cursor_text(row as int, col as int),
{
    let col: i64 = col * 2;
    push_text("\x1b[", out);
    push_decimal(row + 1, out);
    push_text(";", out);
    push_decimal(col + 1, out);
    push_text("H", out);
}

/// Appends the sequence that moves the cursor to `pos`.
pub fn cursor_position(pos: Pos, out: &mut Vec<char>)
    ensures
        final(out)@ == old(out)@ + cursor_text(pos.0 as int, pos.1 as int),
{
    let (row, col) = pos;
    cursor_at(row as i64, col as i64, out);
}

/// Appends a live cell.
pub fn print_cell(out: &mut Vec<char>)
    ensures
        final(out)@ == old(out)@ + live_glyph(),
{
    push_text("\x1b[46m  \x1b[0m", out);
}

/// Appends a dead cell.
pub fn print_dead_cell(out: &mut Vec<char>)
    ensures
        final(out)@ == old(out)@ + dead_glyph(),
{
    push_text("  ", out);
}

/// Appends one line of the border.
fn push_frame_line(left: char, fill: char, right: char, out: &mut Vec<char>)
    ensures
        final(out)@ == old(out)@ + frame_line(left, fill, right),
{
    out.push(left);
    let mut i: i32 = 0;
    while i < TERM_WIN_SIZE * 2
        invariant
            0 <= i <= TERM_WIN_SIZE * 2,
            out@ == old(out)@ + seq![left] + run_of(fill, i as int),
        decreases TERM_WIN_SIZE * 2 - i,
    {
        out.push(fill);
        i += 1;
    }
    out.push(right);
    out.push('\n');
}

/// Appends the border round the window.
pub fn write_frame(out: &mut Vec<char>)
    ensures
        final(out)@ == old(out)@ + frame_text(),
{
    cursor_position((0, 0), out);
    let upper_left_corner: char = '┌';
    let upper_right_corner: char = '┐';
    let horizon: char = '─';
    let vertical: char = '│';
    let lower_left_corner: char = '└';
    let lower_right_corner: char = '┘';

    push_frame_line(upper_left_corner, horizon, upper_right_corner, out);
    let ghost top = out@;
    let mut i: i32 = 0;
    while i < TERM_WIN_SIZE - 1
        invariant
            0 <= i <= TERM_WIN_SIZE - 1,
            vertical == '│',
            out@ == top + lines_of(frame_line('│', ' ', '│'), i as nat),
        decreases TERM_WIN_SIZE - 1 - i,
    {
        push_frame_line(vertical, ' ', vertical, out);
        i += 1;
    }
    push_frame_line(lower_left_corner, horizon, lower_right_corner, out);
}

} // verus!
