//! Colour palettes of the interface: monochrome ramps of eleven shades, one built by
//! hand and the others derived from a base colour.

use vstd::prelude::*;
use crate::text::owned;

verus! {

/// An opaque colour.
#[derive(Debug, Clone, Copy, PartialEq, Eq, Structural)]
pub struct Rgb {
    pub red: u8,
    pub green: u8,
    pub blue: u8,
}

/// The eleven shades of a palette, darkest first; `s50` is the base colour.
#[derive(Debug, Clone, Copy, PartialEq, Eq, Structural)]
pub struct PaletteShades {
    pub s2: Rgb,
    pub s5: Rgb,
    pub s10: Rgb,
    pub s20: Rgb,
    pub s30: Rgb,
    pub s40: Rgb,
    pub s50: Rgb,
    pub s60: Rgb,
    pub s70: Rgb,
    pub s80: Rgb,
    pub s90: Rgb,
}

/// A named palette.
#[derive(Debug, Clone)]
pub struct Palette {
    pub name: String,
    pub shades: PaletteShades,
}

/// The colour written `0xRRGGBB`.
pub open spec fn spec_hex(value: u32) -> Rgb {
    Rgb {
        red: ((value / 0x10000) % 0x100) as u8,
        green: ((value / 0x100) % 0x100) as u8,
        blue: (value % 0x100) as u8,
    }
}

pub fn hex(value: u32) -> (r: Rgb)
    ensures
        r == spec_hex(value),
{
    let red = ((value >> 16) & 0xFF) as u8;
    let green = ((value >> 8) & 0xFF) as u8;
    let blue = (value & 0xFF) as u8;
    assert((value >> 16) & 0xFF == (value / 0x10000) % 0x100) by (bit_vector);
    assert((value >> 8) & 0xFF == (value / 0x100) % 0x100) by (bit_vector);
    assert(value & 0xFF == value % 0x100) by (bit_vector);
    Rgb { red, green, blue }
}

/// The channel `amount / 255` of the way from `from` to `to`, rounded down.
pub open spec fn spec_lerp_u8(from: u8, to: u8, amount: u8) -> u8 {
    ((from * (255 - amount) + to * amount) / 255) as u8
}

proof fn lemma_lerp_bounds(from: u8, to: u8, amount: u8)
    ensures
        0 <= from * (255 - amount) + to * amount <= 255 * 255,
        (from * (255 - amount) + to * amount) / 255 <= 255,
{
    assert(0 <= from * (255 - amount) <= 255 * (255 - amount)) by (nonlinear_arith)
        requires
            from <= 255,
            amount <= 255,
    ;
    assert(0 <= to * amount <= 255 * amount) by (nonlinear_arith)
        requires
            to <= 255,
            amount <= 255,
    ;
    assert((from * (255 - amount) + to * amount) / 255 <= 255) by (nonlinear_arith)
        requires
            0 <= from * (255 - amount) + to * amount <= 255 * 255,
    ;
}

pub fn lerp_u8(from: u8, to: u8, amount: u8) -> (r: u8)
    ensures
        r == spec_lerp_u8(from, to, amount),
{
    proof {
        lemma_lerp_bounds(from, to, amount);
    }
    let f = from as u16;
    let t = to as u16;
    let a = amount as u16;
    ((f * (255 - a) + t * a) / 255) as u8
}

/// Moving a channel towards black never brightens it, and towards white never darkens it.
pub proof fn law_lerp_moves_towards_target(x: u8, amount: u8)
    ensures
        spec_lerp_u8(x, 0, amount) <= x,
        spec_lerp_u8(x, 255, amount) >= x,
        spec_lerp_u8(x, 0, 0) == x,
        spec_lerp_u8(x, 255, 255) == 255,
{
    lemma_lerp_bounds(x, 0, amount);
    lemma_lerp_bounds(x, 255, amount);
    assert((x * (255 - amount) + 0 * amount) / 255 <= x) by (nonlinear_arith)
        requires
            x <= 255,
            amount <= 255,
    ;
    assert((x * (255 - amount) + 255 * amount) / 255 >= x) by (nonlinear_arith)
        requires
            x <= 255,
            amount <= 255,
    ;
    assert((x * (255 - 0) + 0 * 0) / 255 == x) by (nonlinear_arith)
        requires
            x <= 255,
    ;
    assert((x * (255 - 255) + 255 * 255) / 255 == 255) by (nonlinear_arith);
}

pub open spec fn spec_darken(r: u8, g: u8, b: u8, amount: u8) -> Rgb {
    Rgb { red: spec_lerp_u8(r, 0, amount), green: spec_lerp_u8(g, 0, amount), blue: spec_lerp_u8(b, 0, amount) }
}

pub open spec fn spec_lighten(r: u8, g: u8, b: u8, amount: u8) -> Rgb {
    Rgb {
        red: spec_lerp_u8(r, 255, amount),
        green: spec_lerp_u8(g, 255, amount),
        blue: spec_lerp_u8(b, 255, amount),
    }
}

/// The colour `amount / 255` of the way to black.
pub fn darken(r: u8, g: u8, b: u8, amount: u8) -> (c: Rgb)
    ensures
        c == spec_darken(r, g, b, amount),
{
    Rgb { red: lerp_u8(r, 0, amount), green: lerp_u8(g, 0, amount), blue: lerp_u8(b, 0, amount) }
}

/// The colour `amount / 255` of the way to white.
pub fn lighten(r: u8, g: u8, b: u8, amount: u8) -> (c: Rgb)
    ensures
        c == spec_lighten(r, g, b, amount),
{
    Rgb { red: lerp_u8(r, 255, amount), green: lerp_u8(g, 255, amount), blue: lerp_u8(b, 255, amount) }
}

/// The ramp built around a base colour: five darkened shades, the base, four lightened.
pub open spec fn ramp(r: u8, g: u8, b: u8) -> PaletteShades {
    PaletteShades {
        s2: spec_darken(r, g, b, 242),
        s5: spec_darken(r, g, b, 224),
        s10: spec_darken(r, g, b, 199),
        s20: spec_darken(r, g, b, 158),
        s30: spec_darken(r, g, b, 115),
        s40: spec_darken(r, g, b, 64),
        s50: Rgb { red: r, green: g, blue: b },
        s60: spec_lighten(r, g, b, 64),
        s70: spec_lighten(r, g, b, 115),
        s80: spec_lighten(r, g, b, 166),
        s90: spec_lighten(r, g, b, 217),
    }
}

/// Builds a CRT-style monochrome ramp with the base colour at the 50 swatch.
pub fn palette_from_base(name: &str, r: u8, g: u8, b: u8) -> (p: Palette)
    ensures
        p.name@ == name@,
        p.shades == ramp(r, g, b),
{
    Palette {
        name: owned(name),
        shades: PaletteShades {
            s2: darken(r, g, b, 242),
            s5: darken(r, g, b, 224),
            s10: darken(r, g, b, 199),
            s20: darken(r, g, b, 158),
            s30: darken(r, g, b, 115),
            s40: darken(r, g, b, 64),
            s50: Rgb { red: r, green: g, blue: b },
            s60: lighten(r, g, b, 64),
            s70: lighten(r, g, b, 115),
            s80: lighten(r, g, b, 166),
            s90: lighten(r, g, b, 217),
        },
    }
}

/// In a derived palette the darker swatches are no brighter than the base, and the
/// lighter ones no darker, channel by channel.
pub proof fn law_ramp_brackets_base(r: u8, g: u8, b: u8)
    ensures
        ramp(r, g, b).s10.red <= r && ramp(r, g, b).s10.green <= g && ramp(r, g, b).s10.blue <= b,
        ramp(r, g, b).s90.red >= r && ramp(r, g, b).s90.green >= g && ramp(r, g, b).s90.blue >= b,
        ramp(r, g, b).s50 == (Rgb { red: r, green: g, blue: b }),
{
    law_lerp_moves_towards_target(r, 199);
    law_lerp_moves_towards_target(g, 199);
    law_lerp_moves_towards_target(b, 199);
    law_lerp_moves_towards_target(r, 217);
    law_lerp_moves_towards_target(g, 217);
    law_lerp_moves_towards_target(b, 217);
}

/// The hand-made teal palette.
pub fn teal() -> (p: Palette)
    ensures
        p.name@ == "teal"@,
        p.shades.s50 == spec_hex(0x2DD4BF),
{
    Palette {
        name: owned("teal"),
        shades: PaletteShades {
            s2: hex(0x061010),
            s5: hex(0x091E1D),
            s10: hex(0x0D3531),
            s20: hex(0x166259),
            s30: hex(0x1F8C7F),
            s40: hex(0x27B4A2),
            s50: hex(0x2DD4BF),
            s60: hex(0x66E1D1),
            s70: hex(0x94ECDF),
            s80: hex(0xBEF6EC),
            s90: hex(0xE6FFF9),
        },
    }
}

pub fn gold() -> (p: Palette)
    ensures
        p.name@ == "gold"@,
        p.shades == ramp(0xFD, 0xCB, 0x6E),
{
    palette_from_base("gold", 0xFD, 0xCB, 0x6E)
}

pub fn green() -> (p: Palette)
    ensures
        p.name@ == "green"@,
        p.shades == ramp(0x2E, 0xD5, 0x73),
{
    palette_from_base("green", 0x2E, 0xD5, 0x73)
}

pub fn grey() -> (p: Palette)
    ensures
        p.name@ == "grey"@,
        p.shades == ramp(0x95, 0xA5, 0xA6),
{
    palette_from_base("grey", 0x95, 0xA5, 0xA6)
}

pub fn red() -> (p: Palette)
    ensures
        p.name@ == "red"@,
        p.shades == ramp(0xFF, 0x6B, 0x81),
{
    palette_from_base("red", 0xFF, 0x6B, 0x81)
}

pub fn purple() -> (p: Palette)
    ensures
        p.name@ == "purple"@,
        p.shades == ramp(0xA2, 0x9B, 0xFE),
{
    palette_from_base("purple", 0xA2, 0x9B, 0xFE)
}

pub fn blue() -> (p: Palette)
    ensures
        p.name@ == "blue"@,
        p.shades == ramp(0x74, 0xB9, 0xFF),
{
    palette_from_base("blue", 0x74, 0xB9, 0xFF)
}

/// How many palettes there are.
pub const PALETTE_COUNT: usize = 7;

/// The names of the palettes, in cycling order.
pub open spec fn palette_names() -> Seq<Seq<char>> {
    seq!["teal"@, "gold"@, "green"@, "grey"@, "red"@, "purple"@, "blue"@]
}

/// Every palette, in the order the theme key cycles through them; no two share a name.
pub fn palettes() -> (r: Vec<Palette>)
    ensures
        r@.len() == PALETTE_COUNT,
        forall|i: int| 0 <= i < PALETTE_COUNT ==> (#[trigger] r@[i]).name@ == palette_names()[i],
        forall|i: int, j: int|
            0 <= i < j < PALETTE_COUNT ==> (#[trigger] r@[i]).name@ != (#[trigger] r@[j]).name@,
{
    let mut v: Vec<Palette> = Vec::new();
    v.push(teal());
    v.push(gold());
    v.push(green());
    v.push(grey());
    v.push(red());
    v.push(purple());
    v.push(blue());
    proof {
        reveal_strlit("teal");
        reveal_strlit("gold");
        reveal_strlit("green");
        reveal_strlit("grey");
        reveal_strlit("red");
        reveal_strlit("purple");
        reveal_strlit("blue");
        assert("teal"@ =~= seq!['t', 'e', 'a', 'l']);
        assert("gold"@ =~= seq!['g', 'o', 'l', 'd']);
        assert("green"@ =~= seq!['g', 'r', 'e', 'e', 'n']);
        assert("grey"@ =~= seq!['g', 'r', 'e', 'y']);
        assert("red"@ =~= seq!['r', 'e', 'd']);
        assert("purple"@ =~= seq!['p', 'u', 'r', 'p', 'l', 'e']);
        assert("blue"@ =~= seq!['b', 'l', 'u', 'e']);
        assert forall|i: int, j: int| 0 <= i < j < PALETTE_COUNT implies (#[trigger] v@[i]).name@
            != (#[trigger] v@[j]).name@ by {
            assert(v@[i].name@ == palette_names()[i]);
            assert(v@[j].name@ == palette_names()[j]);
            if palette_names()[i] == palette_names()[j] {
                assert(palette_names()[i][0] == palette_names()[j][0]);
                assert(palette_names()[i].len() == palette_names()[j].len());
                assert(palette_names()[i][1] == palette_names()[j][1]);
                assert(palette_names()[i][3] == palette_names()[j][3]);
            }
        }
    }
    v
}

/// The palette shown for a palette index: indices wrap around the palette list.
pub fn palette_by_index(index: usize) -> (p: Palette)
    ensures
        p.name@ == palette_names()[(index % PALETTE_COUNT) as int],
{
    let mut all = palettes();
    let k = index % PALETTE_COUNT;
    all.swap_remove(k)
}

/// The palette after `current` when cycling.
pub fn next_palette_index(current: usize) -> (r: usize)
    requires
        current < usize::MAX,
    ensures
        r == (current + 1) % (PALETTE_COUNT as int),
        r < PALETTE_COUNT,
{
    (current + 1) % PALETTE_COUNT
}

/// The palette after `i` when cycling, for `i` a palette index.
pub open spec fn next_index(i: int) -> int {
    (i + 1) % (PALETTE_COUNT as int)
}

/// Cycling from any palette comes back to it after one turn through the others.
pub proof fn law_palette_cycle_returns(start: int)
    requires
        0 <= start < PALETTE_COUNT,
    ensures
        next_index(next_index(next_index(next_index(next_index(next_index(next_index(start)))))))
            == start,
        forall|k: int| 0 <= k < PALETTE_COUNT ==> 0 <= #[trigger] next_index(k) < PALETTE_COUNT,
{
    assert(next_index(0) == 1 && next_index(1) == 2 && next_index(2) == 3 && next_index(3) == 4);
    assert(next_index(4) == 5 && next_index(5) == 6 && next_index(6) == 0);
}

} // verus!
