//! The brand palette, once, as plain sRGB.
//!
//! The terminal turns these into its own colours and the menu bar panel
//! into CSS, so neither surface keeps its own copy of the values.

use vstd::prelude::*;

verus! {

/// An sRGB triple.
#[derive(Debug, Clone, Copy, PartialEq, Eq, Structural)]
pub struct Rgb(pub u8, pub u8, pub u8);

/// The upper-case hexadecimal digit for `n` (below 16).
pub open spec fn hex_digit(n: int) -> char {
    if n < 10 {
        (48 + n) as char
    } else {
        (55 + n) as char
    }
}

/// `#rrggbb` in upper-case hexadecimal, two digits per channel.
pub open spec fn hex_of(c: Rgb) -> Seq<char> {
    seq![
        '#',
        hex_digit(c.0 as int / 16),
        hex_digit(c.0 as int % 16),
        hex_digit(c.1 as int / 16),
        hex_digit(c.1 as int % 16),
        hex_digit(c.2 as int / 16),
        hex_digit(c.2 as int % 16),
    ]
}

fn hex_char(n: u8) -> (c: char)
    requires
        n < 16,
    ensures
        c == hex_digit(n as int),
{
    match n {
        0 => '0',
        1 => '1',
        2 => '2',
        3 => '3',
        4 => '4',
        5 => '5',
        6 => '6',
        7 => '7',
        8 => '8',
        9 => '9',
        10 => 'A',
        11 => 'B',
        12 => 'C',
        13 => 'D',
        14 => 'E',
        _ => 'F',
    }
}

impl Rgb {
    /// `#rrggbb`, for the panel's stylesheet.
    pub fn hex(self) -> (r: String)
        ensures
            r@ == hex_of(self),
    {
        let mut out: Vec<char> = Vec::new();
        out.push('#');
        out.push(hex_char(self.0 / 16));
        out.push(hex_char(self.0 % 16));
        out.push(hex_char(self.1 / 16));
        out.push(hex_char(self.1 % 16));
        out.push(hex_char(self.2 / 16));
        out.push(hex_char(self.2 % 16));
        assert(out@ =~= hex_of(self));
        crate::text::string_of(&out)
    }
}

/// Clean: the forest green.
pub fn forest() -> (c: Rgb)
    ensures
        c == Rgb(0x5B, 0xA3, 0x7C),
{
    Rgb(0x5B, 0xA3, 0x7C)
}

/// Dirty: amber.
pub fn amber() -> (c: Rgb)
    ensures
        c == Rgb(0xD4, 0x9A, 0x4F),
{
    Rgb(0xD4, 0x9A, 0x4F)
}

/// Emphasis: a stronger amber.
pub fn amber_strong() -> (c: Rgb)
    ensures
        c == Rgb(0xE4, 0xB6, 0x6E),
{
    Rgb(0xE4, 0xB6, 0x6E)
}

/// Quiet text: stone.
pub fn stone() -> (c: Rgb)
    ensures
        c == Rgb(0x9E, 0x9B, 0x96),
{
    Rgb(0x9E, 0x9B, 0x96)
}

/// Quieter still: a darker stone.
pub fn stone_strong() -> (c: Rgb)
    ensures
        c == Rgb(0x76, 0x74, 0x70),
{
    Rgb(0x76, 0x74, 0x70)
}

/// Plain text: ivory.
pub fn ivory() -> (c: Rgb)
    ensures
        c == Rgb(0xED, 0xE9, 0xE2),
{
    Rgb(0xED, 0xE9, 0xE2)
}

/// Conflicts and failures: red.
pub fn conflict() -> (c: Rgb)
    ensures
        c == Rgb(0xC2, 0x4A, 0x3F),
{
    Rgb(0xC2, 0x4A, 0x3F)
}

} // verus!
