//! Packed 24-bit RGB colours: red in bits 16 to 23, green in bits 8 to 15,
//! blue in bits 0 to 7.

use vstd::prelude::*;

verus! {

/// Largest level a single channel can hold.
pub const CHANNEL_MAX: u32 = 255;

/// Background the frame is cleared to: a very dark blue.
pub const BACKGROUND: u32 = 0x000008;

/// Colour the central body is drawn in, whatever its mass.
pub const CENTRAL_COLOR: u32 = 0xFFAA33;

/// Colour of the lightest body: no red, green 200, full blue.
pub const COLD_COLOR: u32 = 0x00C8FF;

/// Colour of the heaviest body: full red, no green, no blue.
pub const HOT_COLOR: u32 = 0xFF0000;

/// The packed colour made of three channel levels. Levels above
/// `CHANNEL_MAX` spill into the bits to their left.
pub open spec fn rgb(red: u32, green: u32, blue: u32) -> u32 {
    (red << 16) | (green << 8) | blue
}

/// Red level of a packed colour.
pub open spec fn red_of(color: u32) -> u32 {
    (color >> 16) & 0xFF
}

/// Green level of a packed colour.
pub open spec fn green_of(color: u32) -> u32 {
    (color >> 8) & 0xFF
}

/// Blue level of a packed colour.
pub open spec fn blue_of(color: u32) -> u32 {
    color & 0xFF
}

/// A channel level multiplied by the fraction `num / den`, rounded down.
pub open spec fn scaled(level: int, num: int, den: int) -> int {
    (level * num) / den
}

/// A colour with each channel multiplied by the fraction `num / den` and
/// rounded down.
pub open spec fn dimmed(color: u32, num: int, den: int) -> u32 {
    rgb(
        scaled(red_of(color) as int, num, den) as u32,
        scaled(green_of(color) as int, num, den) as u32,
        scaled(blue_of(color) as int, num, den) as u32,
    )
}

/// Packs three channel levels into one colour.
pub fn pack_rgb(red: u32, green: u32, blue: u32) -> (color: u32)
    ensures
        color == rgb(red, green, blue),
{
    (red << 16) | (green << 8) | blue
}

/// Reads the red level of a packed colour.
pub fn red(color: u32) -> (level: u32)
    ensures
        level == red_of(color),
        level <= CHANNEL_MAX,
{
    assert((color >> 16) & 0xFF <= 255) by (bit_vector);
    (color >> 16) & 0xFF
}

/// Reads the green level of a packed colour.
pub fn green(color: u32) -> (level: u32)
    ensures
        level == green_of(color),
        level <= CHANNEL_MAX,
{
    assert((color >> 8) & 0xFF <= 255) by (bit_vector);
    (color >> 8) & 0xFF
}

/// Reads the blue level of a packed colour.
pub fn blue(color: u32) -> (level: u32)
    ensures
        level == blue_of(color),
        level <= CHANNEL_MAX,
{
    assert(color & 0xFF <= 255) by (bit_vector);
    color & 0xFF
}

/// A level scaled by a fraction of at most one stays a level, and never
/// exceeds the level it came from.
pub proof fn lemma_scaled_bounds(level: int, num: int, den: int)
    requires
        0 <= level,
        0 <= num <= den,
        0 < den,
    ensures
        0 <= scaled(level, num, den) <= level,
        num < den && 0 < level ==> scaled(level, num, den) < level,
        num == 0 ==> scaled(level, num, den) == 0,
        num == den ==> scaled(level, num, den) == level,
{
    assert(0 <= (level * num) / den <= level) by (nonlinear_arith)
        requires
            0 <= level,
            0 <= num <= den,
            0 < den,
    ;
    assert(num < den && 0 < level ==> (level * num) / den < level) by (nonlinear_arith)
        requires
            0 <= level,
            0 <= num <= den,
            0 < den,
    ;
    assert(num == 0 ==> (level * num) / den == 0) by (nonlinear_arith)
        requires
            0 < den,
    ;
    assert(num == den ==> (level * num) / den == level) by (nonlinear_arith)
        requires
            0 < den,
    ;
}

/// Scales one channel level by `num / den`, rounding down.
fn scale_level(level: u32, num: u64, den: u64) -> (out: u32)
    requires
        level <= CHANNEL_MAX,
        0 < den,
        num <= den,
    ensures
        out == scaled(level as int, num as int, den as int),
        out <= level,
{
    proof {
        lemma_scaled_bounds(level as int, num as int, den as int);
        assert(level * num <= 255 * 0xFFFF_FFFF_FFFF_FFFF) by (nonlinear_arith)
            requires
                0 <= level <= 255,
                0 <= num <= 0xFFFF_FFFF_FFFF_FFFF,
        ;
    }
    let product: u128 = (level as u128) * (num as u128);
    let quotient: u128 = product / (den as u128);
    quotient as u32
}

/// Dims a colour: every channel is multiplied by the fraction `num / den`
/// and rounded down. Bits above the three channels are dropped.
pub fn dim(color: u32, num: u64, den: u64) -> (out: u32)
    requires
        0 < den,
        num <= den,
    ensures
        out == dimmed(color, num as int, den as int),
{
    let r: u32 = scale_level(red(color), num, den);
    let g: u32 = scale_level(green(color), num, den);
    let b: u32 = scale_level(blue(color), num, den);
    pack_rgb(r, g, b)
}

/// Packing three levels and reading them back gives the same levels, and
/// the packed colour is the number with those three base-256 digits.
pub proof fn lemma_channels_of_rgb(red: u32, green: u32, blue: u32)
    requires
        red <= CHANNEL_MAX,
        green <= CHANNEL_MAX,
        blue <= CHANNEL_MAX,
    ensures
        red_of(rgb(red, green, blue)) == red,
        green_of(rgb(red, green, blue)) == green,
        blue_of(rgb(red, green, blue)) == blue,
        rgb(red, green, blue) == red * 0x10000 + green * 0x100 + blue,
{
    assert((((red << 16) | (green << 8) | blue) >> 16) & 0xFF == red) by (bit_vector)
        requires
            red <= 255,
            green <= 255,
            blue <= 255,
    ;
    assert((((red << 16) | (green << 8) | blue) >> 8) & 0xFF == green) by (bit_vector)
        requires
            red <= 255,
            green <= 255,
            blue <= 255,
    ;
    assert(((red << 16) | (green << 8) | blue) & 0xFF == blue) by (bit_vector)
        requires
            red <= 255,
            green <= 255,
            blue <= 255,
    ;
    assert(((red << 16) | (green << 8) | blue) == red * 0x10000 + green * 0x100 + blue)
        by (bit_vector)
        requires
            red <= 255,
            green <= 255,
            blue <= 255,
    ;
}

/// A colour of 24 bits is the packing of its own three channels.
pub proof fn lemma_rgb_of_channels(color: u32)
    requires
        color <= 0xFFFFFF,
    ensures
        rgb(red_of(color), green_of(color), blue_of(color)) == color,
{
    assert(((((color >> 16) & 0xFF) << 16) | (((color >> 8) & 0xFF) << 8) | (color & 0xFF))
        == color) by (bit_vector)
        requires
            color <= 0xFFFFFF,
    ;
}

/// The colours at the two ends of the mass range: the lightest body has no
/// red, green 200 and full blue; the heaviest has full red and nothing
/// else.
pub proof fn lemma_endpoint_colors()
    ensures
        COLD_COLOR == rgb(0, 200, CHANNEL_MAX),
        HOT_COLOR == rgb(CHANNEL_MAX, 0, 0),
{
    lemma_channels_of_rgb(0, 200, 255);
    lemma_channels_of_rgb(255, 0, 0);
}

/// Dimming never brightens a channel, and a fraction below one darkens
/// every channel that is lit.
pub proof fn lemma_dimmed_channels(color: u32, num: int, den: int)
    requires
        0 <= num <= den,
        0 < den,
    ensures
        red_of(dimmed(color, num, den)) == scaled(red_of(color) as int, num, den),
        green_of(dimmed(color, num, den)) == scaled(green_of(color) as int, num, den),
        blue_of(dimmed(color, num, den)) == scaled(blue_of(color) as int, num, den),
        red_of(dimmed(color, num, den)) <= red_of(color),
        green_of(dimmed(color, num, den)) <= green_of(color),
        blue_of(dimmed(color, num, den)) <= blue_of(color),
        dimmed(color, num, den) <= 0xFFFFFF,
{
    assert((color >> 16) & 0xFF <= 255) by (bit_vector);
    assert((color >> 8) & 0xFF <= 255) by (bit_vector);
    assert(color & 0xFF <= 255) by (bit_vector);
    lemma_scaled_bounds(red_of(color) as int, num, den);
    lemma_scaled_bounds(green_of(color) as int, num, den);
    lemma_scaled_bounds(blue_of(color) as int, num, den);
    let r = scaled(red_of(color) as int, num, den) as u32;
    let g = scaled(green_of(color) as int, num, den) as u32;
    let b = scaled(blue_of(color) as int, num, den) as u32;
    lemma_channels_of_rgb(r, g, b);
}

/// With the fraction zero every channel goes dark.
pub proof fn lemma_dimmed_to_black(color: u32, den: int)
    requires
        0 < den,
    ensures
        dimmed(color, 0, den) == 0,
{
    assert((color >> 16) & 0xFF <= 255) by (bit_vector);
    assert((color >> 8) & 0xFF <= 255) by (bit_vector);
    assert(color & 0xFF <= 255) by (bit_vector);
    lemma_scaled_bounds(red_of(color) as int, 0, den);
    lemma_scaled_bounds(green_of(color) as int, 0, den);
    lemma_scaled_bounds(blue_of(color) as int, 0, den);
    lemma_channels_of_rgb(0, 0, 0);
}

} // verus!
