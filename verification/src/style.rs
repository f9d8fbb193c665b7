//! Terminal escape sequences for foreground colour, background colour and
//! text style, and strings wrapped in them.
//!
//! The style codes that terminals know are 1 (bold), 2 (dimmed), 3 (italic),
//! 4 (underline), 5 (blink), 7 (reversed), 8 (hidden) and 9 (strikethrough).

use vstd::prelude::*;
use vstd::string::*;

verus! {

/// The character of the decimal digit `d`.
pub open spec fn digit_char(d: nat) -> char
    recommends
        d < 10,
{
    (48 + d) as char
}

/// `n` written in decimal, without leading zeros.
pub open spec fn decimal(n: nat) -> Seq<char>
    decreases n,
{
    if n < 10 {
        seq![digit_char(n)]
    } else {
        decimal(n / 10).push(digit_char(n % 10))
    }
}

/// The sequence that resets colour and style.
pub open spec fn reset_code() -> Seq<char> {
    "\x1b[0m"@
}

/// The sequence that switches to the text style `code`.
pub open spec fn style_code(code: u8) -> Seq<char> {
    "\x1b["@ + decimal(code as nat) + ";1m"@
}

/// The three parts of a colour, separated and closed as the colour sequences
/// have them.
pub open spec fn rgb_tail(r: u8, g: u8, b: u8) -> Seq<char> {
    decimal(r as nat) + ";"@ + decimal(g as nat) + ";"@ + decimal(b as nat) + ";1m"@
}

/// The sequence that switches to the foreground colour `(r, g, b)`.
pub open spec fn fg_code(r: u8, g: u8, b: u8) -> Seq<char> {
    "\x1b[38;2;"@ + rgb_tail(r, g, b)
}

/// The sequence that switches to the background colour `(r, g, b)`.
pub open spec fn bg_code(r: u8, g: u8, b: u8) -> Seq<char> {
    "\x1b[48;2;"@ + rgb_tail(r, g, b)
}

/// `s` in the foreground colour `(r, g, b)`, followed by a reset.
pub open spec fn with_fg(s: Seq<char>, r: u8, g: u8, b: u8) -> Seq<char> {
    fg_code(r, g, b) + s + reset_code()
}

/// `s` on the background colour `(r, g, b)`, followed by a reset.
pub open spec fn with_bg(s: Seq<char>, r: u8, g: u8, b: u8) -> Seq<char> {
    bg_code(r, g, b) + s + reset_code()
}

/// `s` in the text style `code`, followed by a reset, where `code` is at
/// most 9; `s` itself for any other code.
pub open spec fn with_style(s: Seq<char>, code: u8) -> Seq<char> {
    if code <= 9 {
        style_code(code) + s + reset_code()
    } else {
        s
    }
}

/// The character of the decimal digit `d`.
fn digit(d: u8) -> (c: char)
    requires
        d < 10,
    ensures
        c == digit_char(d as nat),
{
    match d {
        0 => '0',
        1 => '1',
        2 => '2',
        3 => '3',
        4 => '4',
        5 => '5',
        6 => '6',
        7 => '7',
        8 => '8',
        _ => '9',
    }
}

/// Writes `n` in decimal at the end of `out`.
fn push_decimal(out: &mut String, n: u8)
    ensures
        final(out)@ == old(out)@ + decimal(n as nat),
{
    proof {
        reveal_with_fuel(decimal, 3);
    }
    if n >= 100 {
        out.push(digit(n / 100));
    }
    if n >= 10 {
        out.push(digit((n / 10) % 10));
    }
    out.push(digit(n % 10));
    proof {
        assert(final(out)@ =~= old(out)@ + decimal(n as nat));
    }
}

/// Writes the three parts of a colour at the end of `out`.
fn push_rgb(out: &mut String, r: u8, g: u8, b: u8)
    ensures
        final(out)@ == old(out)@ + rgb_tail(r, g, b),
{
    push_decimal(out, r);
    out.append(";");
    push_decimal(out, g);
    out.append(";");
    push_decimal(out, b);
    out.append(";1m");
    proof {
        assert(final(out)@ =~= old(out)@ + rgb_tail(r, g, b));
    }
}

/// The sequence that switches to the foreground colour `(r, g, b)`.
pub fn fg(r: u8, g: u8, b: u8) -> (code: String)
    ensures
        code@ == fg_code(r, g, b),
{
    let mut code = String::from_str("\x1b[38;2;");
    push_rgb(&mut code, r, g, b);
    code
}

/// The sequence that switches to the background colour `(r, g, b)`.
pub fn bg(r: u8, g: u8, b: u8) -> (code: String)
    ensures
        code@ == bg_code(r, g, b),
{
    let mut code = String::from_str("\x1b[48;2;");
    push_rgb(&mut code, r, g, b);
    code
}

/// The sequence that switches to the text style `code`.
pub fn style(code: u8) -> (out: String)
    ensures
        out@ == style_code(code),
{
    let mut out = String::from_str("\x1b[");
    push_decimal(&mut out, code);
    out.append(";1m");
    out
}

/// The sequence that resets colour and style.
pub fn reset() -> (code: String)
    ensures
        code@ == reset_code(),
{
    String::from_str("\x1b[0m")
}

/// `s` in the foreground colour `(r, g, b)`, followed by a reset.
pub fn add_fg(s: String, r: u8, g: u8, b: u8) -> (out: String)
    ensures
        out@ == with_fg(s@, r, g, b),
        out@ == fg_code(r, g, b) + s@ + reset_code(),
{
    let mut out = fg(r, g, b);
    out.append(s.as_str());
    out.append("\x1b[0m");
    out
}

/// `s` on the background colour `(r, g, b)`, followed by a reset.
pub fn add_bg(s: String, r: u8, g: u8, b: u8) -> (out: String)
    ensures
        out@ == with_bg(s@, r, g, b),
        out@ == bg_code(r, g, b) + s@ + reset_code(),
{
    let mut out = bg(r, g, b);
    out.append(s.as_str());
    out.append("\x1b[0m");
    out
}

/// `s` in the text style `code`, followed by a reset, where `code` is at
/// most 9; `s` unchanged for any other code.
pub fn add_style(s: String, code: u8) -> (out: String)
    ensures
        out@ == with_style(s@, code),
{
    if code <= 9 {
        let mut out = style(code);
        out.append(s.as_str());
        out.append("\x1b[0m");
        out
    } else {
        s
    }
}

} // verus!
