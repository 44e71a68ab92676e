use vstd::prelude::*;

verus! {

/// A colour as 24-bit RGB.
#[derive(Clone, Copy, Debug, PartialEq, Eq, Structural)]
pub struct Rgb {
    pub r: u8,
    pub g: u8,
    pub b: u8,
}

pub open spec fn rgb(r: int, g: int, b: int) -> Rgb {
    Rgb { r: r as u8, g: g as u8, b: b as u8 }
}

/// The sixteen basic colours: eight normal ones, then eight bright ones.
pub open spec fn basic16(n: int) -> Rgb {
    if n == 0 { rgb(0x00, 0x00, 0x00) }
    else if n == 1 { rgb(0xaa, 0x00, 0x00) }
    else if n == 2 { rgb(0x00, 0xaa, 0x00) }
    else if n == 3 { rgb(0xaa, 0xaa, 0x00) }
    else if n == 4 { rgb(0x00, 0x00, 0xaa) }
    else if n == 5 { rgb(0xaa, 0x00, 0xaa) }
    else if n == 6 { rgb(0x00, 0xaa, 0xaa) }
    else if n == 7 { rgb(0xaa, 0xaa, 0xaa) }
    else if n == 8 { rgb(0x55, 0x55, 0x55) }
    else if n == 9 { rgb(0xff, 0x55, 0x55) }
    else if n == 10 { rgb(0x55, 0xff, 0x55) }
    else if n == 11 { rgb(0xff, 0xff, 0x55) }
    else if n == 12 { rgb(0x55, 0x55, 0xff) }
    else if n == 13 { rgb(0xff, 0x55, 0xff) }
    else if n == 14 { rgb(0x55, 0xff, 0xff) }
    else { rgb(0xff, 0xff, 0xff) }
}

/// Intensity of one axis step of the 6x6x6 colour cube.
pub open spec fn cube_level(v: int) -> int {
    if v == 0 { 0 } else { 55 + v * 40 }
}

/// The colour of an entry of the 256-colour palette.
pub open spec fn palette_256(n: u8) -> Rgb {
    if n < 16 {
        basic16(n as int)
    } else if n < 232 {
        let k = n as int - 16;
        rgb(cube_level(k / 36), cube_level((k / 6) % 6), cube_level(k % 6))
    } else {
        let gray = 8 + (n as int - 232) * 10;
        rgb(gray, gray, gray)
    }
}

pub open spec fn hex_digit(d: int) -> char {
    if d < 10 { (d + '0' as int) as char } else { (d - 10 + 'a' as int) as char }
}

/// Two lower-case hex digits of a byte.
pub open spec fn hex_byte(b: u8) -> Seq<char> {
    seq![hex_digit(b as int / 16), hex_digit(b as int % 16)]
}

/// `#rrggbb`.
pub open spec fn hex_color(c: Rgb) -> Seq<char> {
    seq!['#'] + hex_byte(c.r) + hex_byte(c.g) + hex_byte(c.b)
}

/// One of the sixteen basic colours.
pub fn basic_color(n: u8) -> (c: Rgb)
    requires
        n < 16,
    ensures
        c == basic16(n as int),
{
    if n == 0 { Rgb { r: 0x00, g: 0x00, b: 0x00 } }
    else if n == 1 { Rgb { r: 0xaa, g: 0x00, b: 0x00 } }
    else if n == 2 { Rgb { r: 0x00, g: 0xaa, b: 0x00 } }
    else if n == 3 { Rgb { r: 0xaa, g: 0xaa, b: 0x00 } }
    else if n == 4 { Rgb { r: 0x00, g: 0x00, b: 0xaa } }
    else if n == 5 { Rgb { r: 0xaa, g: 0x00, b: 0xaa } }
    else if n == 6 { Rgb { r: 0x00, g: 0xaa, b: 0xaa } }
    else if n == 7 { Rgb { r: 0xaa, g: 0xaa, b: 0xaa } }
    else if n == 8 { Rgb { r: 0x55, g: 0x55, b: 0x55 } }
    else if n == 9 { Rgb { r: 0xff, g: 0x55, b: 0x55 } }
    else if n == 10 { Rgb { r: 0x55, g: 0xff, b: 0x55 } }
    else if n == 11 { Rgb { r: 0xff, g: 0xff, b: 0x55 } }
    else if n == 12 { Rgb { r: 0x55, g: 0x55, b: 0xff } }
    else if n == 13 { Rgb { r: 0xff, g: 0x55, b: 0xff } }
    else if n == 14 { Rgb { r: 0x55, g: 0xff, b: 0xff } }
    else { Rgb { r: 0xff, g: 0xff, b: 0xff } }
}

fn cube_axis(v: u8) -> (r: u8)
    requires
        v < 6,
    ensures
        r as int == cube_level(v as int),
{
    if v == 0 { 0 } else { 55 + v * 40 }
}

/// The colour of an entry of the 256-colour palette.
pub fn ansi_256_color(n: u8) -> (c: Rgb)
    ensures
        c == palette_256(n),
{
    if n < 16 {
        basic_color(n)
    } else if n < 232 {
        let k = n - 16;
        Rgb { r: cube_axis((k / 36) % 6), g: cube_axis((k / 6) % 6), b: cube_axis(k % 6) }
    } else {
        let gray = 8 + (n - 232) * 10;
        Rgb { r: gray, g: gray, b: gray }
    }
}

fn hex_char(d: u8) -> (c: char)
    requires
        d < 16,
    ensures
        c == hex_digit(d as int),
{
    if d < 10 { (d + 48) as char } else { (d - 10 + 97) as char }
}

/// Appends `#rrggbb` for `c` to `out`.
pub fn push_hex_color(out: &mut Vec<char>, c: Rgb)
    ensures
        final(out)@ == old(out)@ + hex_color(c),
{
    out.push('#');
    out.push(hex_char(c.r / 16));
    out.push(hex_char(c.r % 16));
    out.push(hex_char(c.g / 16));
    out.push(hex_char(c.g % 16));
    out.push(hex_char(c.b / 16));
    out.push(hex_char(c.b % 16));
    assert(final(out)@ =~= old(out)@ + hex_color(c));
}

/// The `#rrggbb` form of an entry of the 256-colour palette.
pub fn ansi_256_to_rgb(n: u8) -> (r: String)
    ensures
        r@ == hex_color(palette_256(n)),
{
    let mut out: Vec<char> = Vec::new();
    push_hex_color(&mut out, ansi_256_color(n));
    crate::text::string_of(out.as_slice())
}

} // verus!
