//! The exact ANSI/VT100 byte sequences the library emits, as sequences of
//! characters, and the trusted bridge to the terminal backend that produces
//! them at run time.

use vstd::prelude::*;

use crate::render::Color;

verus! {

/// The decimal digit character for one value below ten.
pub open spec fn dec_digit(n: nat) -> char {
    if n == 0 {
        '0'
    } else if n == 1 {
        '1'
    } else if n == 2 {
        '2'
    } else if n == 3 {
        '3'
    } else if n == 4 {
        '4'
    } else if n == 5 {
        '5'
    } else if n == 6 {
        '6'
    } else if n == 7 {
        '7'
    } else if n == 8 {
        '8'
    } else {
        '9'
    }
}

/// The usual decimal rendering of `n`, most significant digit first,
/// with no leading zeros (a lone zero for `n == 0`).
pub open spec fn dec_rep(n: nat) -> Seq<char>
    decreases n,
{
    if n < 10 {
        seq![dec_digit(n)]
    } else {
        dec_rep(n / 10).push(dec_digit(n % 10))
    }
}

/// The absolute cursor-position code for the 1-indexed column `x` and row `y`:
/// ESC `[` row `;` column `H`.
pub open spec fn goto_seq(x: nat, y: nat) -> Seq<char> {
    seq!['\x1b', '['] + dec_rep(y) + seq![';'] + dec_rep(x) + seq!['H']
}

/// The palette index the terminal uses for each color of the fixed palette.
pub open spec fn color_num_seq(c: Color) -> Seq<char> {
    match c {
        Color::Black => seq!['0'],
        Color::Blue => seq!['4'],
        Color::White => seq!['7'],
        Color::LightWhite => seq!['1', '5'],
    }
}

/// The SGR foreground-selection code for one palette color:
/// ESC `[38;5;` index `m`.
pub open spec fn fg_seq(c: Color) -> Seq<char> {
    seq!['\x1b', '[', '3', '8', ';', '5', ';'] + color_num_seq(c) + seq!['m']
}

/// The SGR background-selection code for one palette color:
/// ESC `[48;5;` index `m`.
pub open spec fn bg_seq(c: Color) -> Seq<char> {
    seq!['\x1b', '[', '4', '8', ';', '5', ';'] + color_num_seq(c) + seq!['m']
}

/// The save-cursor code ESC `[s`.
pub open spec fn save_seq() -> Seq<char> {
    seq!['\x1b', '[', 's']
}

/// The restore-cursor code ESC `[u`.
pub open spec fn restore_seq() -> Seq<char> {
    seq!['\x1b', '[', 'u']
}

/// Relies on termion::cursor::Goto's Display impl, which writes
/// `ESC [ {row} ; {column} H` with the two numbers in standard decimal
/// (and asserts that the 1-indexed position is not (0, 0)).
#[verifier::external_body]
pub(crate) fn goto_code(x: u16, y: u16) -> (r: String)
    requires
        1 <= x || 1 <= y,
    ensures
        r@ == goto_seq(x as nat, y as nat),
{
    format!("{}", termion::cursor::Goto(x, y))
}

/// Relies on termion::color::Black::fg_str, which returns `ESC [38;5;0m`.
#[verifier::external_body]
fn black_fg_code() -> (r: &'static str)
    ensures
        r@ == fg_seq(Color::Black),
{
    termion::color::Black.fg_str()
}

/// Relies on termion::color::White::fg_str, which returns `ESC [38;5;7m`.
#[verifier::external_body]
fn white_fg_code() -> (r: &'static str)
    ensures
        r@ == fg_seq(Color::White),
{
    termion::color::White.fg_str()
}

/// Relies on termion::color::LightWhite::fg_str, which returns `ESC [38;5;15m`.
#[verifier::external_body]
fn light_white_fg_code() -> (r: &'static str)
    ensures
        r@ == fg_seq(Color::LightWhite),
{
    termion::color::LightWhite.fg_str()
}

/// Relies on termion::color::Blue::fg_str, which returns `ESC [38;5;4m`.
#[verifier::external_body]
fn blue_fg_code() -> (r: &'static str)
    ensures
        r@ == fg_seq(Color::Blue),
{
    termion::color::Blue.fg_str()
}

/// Relies on termion::color::Black::bg_str, which returns `ESC [48;5;0m`.
#[verifier::external_body]
fn black_bg_code() -> (r: &'static str)
    ensures
        r@ == bg_seq(Color::Black),
{
    termion::color::Black.bg_str()
}

/// Relies on termion::color::White::bg_str, which returns `ESC [48;5;7m`.
#[verifier::external_body]
fn white_bg_code() -> (r: &'static str)
    ensures
        r@ == bg_seq(Color::White),
{
    termion::color::White.bg_str()
}

/// Relies on termion::color::LightWhite::bg_str, which returns `ESC [48;5;15m`.
#[verifier::external_body]
fn light_white_bg_code() -> (r: &'static str)
    ensures
        r@ == bg_seq(Color::LightWhite),
{
    termion::color::LightWhite.bg_str()
}

/// Relies on termion::color::Blue::bg_str, which returns `ESC [48;5;4m`.
#[verifier::external_body]
fn blue_bg_code() -> (r: &'static str)
    ensures
        r@ == bg_seq(Color::Blue),
{
    termion::color::Blue.bg_str()
}

/// Relies on termion::cursor::Save's Display impl, which writes `ESC [s`.
#[verifier::external_body]
pub(crate) fn save_code() -> (r: String)
    ensures
        r@ == save_seq(),
{
    format!("{}", termion::cursor::Save)
}

/// Relies on termion::cursor::Restore's Display impl, which writes `ESC [u`.
#[verifier::external_body]
pub(crate) fn restore_code() -> (r: String)
    ensures
        r@ == restore_seq(),
{
    format!("{}", termion::cursor::Restore)
}

/// The foreground-selection code for one palette color.
pub fn fg_code(c: Color) -> (r: &'static str)
    ensures
        r@ == fg_seq(c),
{
    match c {
        Color::White => white_fg_code(),
        Color::Black => black_fg_code(),
        Color::LightWhite => light_white_fg_code(),
        Color::Blue => blue_fg_code(),
    }
}

/// The background-selection code for one palette color.
pub fn bg_code(c: Color) -> (r: &'static str)
    ensures
        r@ == bg_seq(c),
{
    match c {
        Color::White => white_bg_code(),
        Color::Black => black_bg_code(),
        Color::LightWhite => light_white_bg_code(),
        Color::Blue => blue_bg_code(),
    }
}

/// Relies on String::push, which appends exactly the one character.
#[verifier::external_body]
pub(crate) fn push_char(s: &mut String, c: char)
    ensures
        final(s)@ == old(s)@.push(c),
{
    s.push(c)
}

/// The first character that char::to_lowercase yields for a character;
/// it depends on the character alone.
pub uninterp spec fn lower_char(c: char) -> char;

/// Relies on char::to_lowercase: its result depends on the character alone,
/// and the iterator it returns always yields at least one character.
#[verifier::external_body]
pub(crate) fn to_lower(c: char) -> (r: char)
    ensures
        r == lower_char(c),
{
    c.to_lowercase().next().unwrap()
}

} // verus!
