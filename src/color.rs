//! Foreground colors: a 256-palette index or a packed true-color value.
use vstd::prelude::*;

verus! {

/// The high bit that marks a true-color value.
pub const TRUE_COLOR_BIT: u32 = 0x8000_0000;

/// The palette index of the default foreground (bright white).
pub const DEFAULT_FG: u32 = 15;

pub open spec fn spec_true_color(r: u8, g: u8, b: u8) -> u32 {
    (0x8000_0000 + r * 0x1_0000 + g * 0x100 + b) as u32
}

pub open spec fn spec_is_true_color(fg: u32) -> bool {
    fg >= 0x8000_0000
}

pub open spec fn spec_red(fg: u32) -> u8 {
    ((fg / 0x1_0000) % 0x100) as u8
}

pub open spec fn spec_green(fg: u32) -> u8 {
    ((fg / 0x100) % 0x100) as u8
}

pub open spec fn spec_blue(fg: u32) -> u8 {
    (fg % 0x100) as u8
}

/// Packs red, green and blue into a true-color value.
pub fn true_color(r: u8, g: u8, b: u8) -> (c: u32)
    ensures
        c == spec_true_color(r, g, b),
        spec_is_true_color(c),
{
    TRUE_COLOR_BIT + (r as u32) * 0x1_0000 + (g as u32) * 0x100 + (b as u32)
}

/// Whether the value is a true-color value rather than a palette index.
pub fn is_true_color(fg: u32) -> (r: bool)
    ensures
        r == spec_is_true_color(fg),
{
    fg >= TRUE_COLOR_BIT
}

/// The red component of a true-color value.
pub fn red(fg: u32) -> (r: u8)
    ensures
        r == spec_red(fg),
{
    ((fg / 0x1_0000) % 0x100) as u8
}

/// The green component of a true-color value.
pub fn green(fg: u32) -> (r: u8)
    ensures
        r == spec_green(fg),
{
    ((fg / 0x100) % 0x100) as u8
}

/// The blue component of a true-color value.
pub fn blue(fg: u32) -> (r: u8)
    ensures
        r == spec_blue(fg),
{
    (fg % 0x100) as u8
}

/// Decoding a packed true-color value gives back its three components.
pub proof fn lemma_true_color_decodes(r: u8, g: u8, b: u8)
    ensures
        spec_is_true_color(spec_true_color(r, g, b)),
        spec_red(spec_true_color(r, g, b)) == r,
        spec_green(spec_true_color(r, g, b)) == g,
        spec_blue(spec_true_color(r, g, b)) == b,
{
    let c: int = 0x8000_0000 + r * 0x1_0000 + g * 0x100 + b;
    assert(c / 0x1_0000 == 0x8000 + r) by (nonlinear_arith)
        requires c == 0x8000_0000 + r * 0x1_0000 + g * 0x100 + b, 0 <= r < 256, 0 <= g < 256, 0 <= b < 256;
    assert(c / 0x100 == 0x80_0000 + r * 0x100 + g) by (nonlinear_arith)
        requires c == 0x8000_0000 + r * 0x1_0000 + g * 0x100 + b, 0 <= r < 256, 0 <= g < 256, 0 <= b < 256;
    assert((0x80_0000 + r * 0x100 + g) % 0x100 == g) by (nonlinear_arith)
        requires 0 <= r < 256, 0 <= g < 256;
    assert(c % 0x100 == b) by (nonlinear_arith)
        requires c == 0x8000_0000 + r * 0x1_0000 + g * 0x100 + b, 0 <= r < 256, 0 <= g < 256, 0 <= b < 256;
}

/// The character of a decimal digit.
pub open spec fn digit_char(d: nat) -> char {
    ((48 + d) as u8) as char
}

/// The decimal digits of `n`, most significant first, without leading zeros.
pub open spec fn decimal(n: nat) -> Seq<char>
    decreases n,
{
    if n < 10 {
        seq![digit_char(n)]
    } else {
        decimal(n / 10).push(digit_char(n % 10))
    }
}

/// Appends the decimal digits of `n` to `out`.
pub fn push_decimal(out: &mut Vec<char>, n: u32)
    ensures
        final(out)@ == old(out)@ + decimal(n as nat),
    decreases n,
{
    if n >= 10 {
        push_decimal(out, n / 10);
    }
    let d: u8 = (n % 10) as u8;
    out.push((48u8 + d) as char);
}

/// The SGR sequence that selects `fg` as the foreground color:
/// `ESC [ 38 ; 5 ; i m` for a palette index, `ESC [ 38 ; 2 ; r ; g ; b m` for a true color.
pub open spec fn color_code_of(fg: u32) -> Seq<char> {
    if spec_is_true_color(fg) {
        seq!['\x1b', '[', '3', '8', ';', '2', ';'] + decimal(spec_red(fg) as nat) + seq![';']
            + decimal(spec_green(fg) as nat) + seq![';'] + decimal(spec_blue(fg) as nat) + seq![
            'm',
        ]
    } else {
        seq!['\x1b', '[', '3', '8', ';', '5', ';'] + decimal(fg as nat) + seq!['m']
    }
}

/// Appends the SGR sequence that selects `fg` as the foreground color.
pub fn write_color(out: &mut Vec<char>, fg: u32)
    ensures
        final(out)@ == old(out)@ + color_code_of(fg),
{
    out.push('\x1b');
    out.push('[');
    out.push('3');
    out.push('8');
    out.push(';');
    if is_true_color(fg) {
        out.push('2');
        out.push(';');
        push_decimal(out, red(fg) as u32);
        out.push(';');
        push_decimal(out, green(fg) as u32);
        out.push(';');
        push_decimal(out, blue(fg) as u32);
    } else {
        out.push('5');
        out.push(';');
        push_decimal(out, fg);
    }
    out.push('m');
    assert(out@ =~= old(out)@ + color_code_of(fg));
}

} // verus!
