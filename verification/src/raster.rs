//! The rasterizer: bodies drawn as filled discs with a glow around them.

use vstd::prelude::*;
use crate::color::{
    blue_of, dim, dimmed, green_of, lemma_dimmed_channels, lemma_dimmed_to_black,
    lemma_scaled_bounds, red_of, BACKGROUND, CENTRAL_COLOR,
};
use crate::frame::{lemma_index_join, lemma_index_split, pixel_index, FrameBuffer};

verus! {

/// Radius of the glow around a disc of the given radius. The central body
/// has the wider halo.
pub open spec fn glow_radius(radius: int, is_central: bool) -> int {
    if is_central {
        radius * 2
    } else {
        radius + 2
    }
}

/// Squared distance of the offset `(dx, dy)` from the centre.
pub open spec fn dist_sq(dx: int, dy: int) -> int {
    dx * dx + dy * dy
}

/// What a pixel shows once a body has been drawn, where `under` is what it
/// showed before and `(dx, dy)` its offset from the body's centre: beyond
/// the glow it keeps `under`; inside the disc it takes the body's colour;
/// in between it takes that colour dimmed by `1 - d / glow^2`, with `d` the
/// squared distance.
pub open spec fn shade(under: u32, dx: int, dy: int, radius: int, glow: int, color: u32) -> u32 {
    let d = dist_sq(dx, dy);
    if glow < 0 || d > glow * glow {
        under
    } else if d <= radius * radius {
        color
    } else {
        dimmed(color, glow * glow - d, glow * glow)
    }
}

/// The pixels of a buffer of the given width after a body has been drawn at
/// `(x, y)` over `pixels`.
pub open spec fn painted(
    pixels: Seq<u32>,
    width: int,
    x: int,
    y: int,
    radius: int,
    glow: int,
    color: u32,
) -> Seq<u32> {
    Seq::new(
        pixels.len(),
        |i: int| shade(pixels[i], i % width - x, i / width - y, radius, glow, color),
    )
}

/// The pixel `i` of a buffer in which a body is being drawn over `start`:
/// shaded where `done` holds, as it was elsewhere.
spec fn partly(
    start: Seq<u32>,
    i: int,
    done: bool,
    width: int,
    x: int,
    y: int,
    radius: int,
    glow: int,
    color: u32,
) -> u32 {
    if done {
        shade(start[i], i % width - x, i / width - y, radius, glow, color)
    } else {
        start[i]
    }
}

/// The value `v` brought into `0 ..= limit`.
spec fn clamped(v: int, limit: int) -> int {
    if v < 0 {
        0
    } else if v > limit {
        limit
    } else {
        v
    }
}

/// An offset that leaves the glow's bounding square leaves the glow.
proof fn lemma_beyond_glow(dx: int, dy: int, glow: int)
    requires
        0 <= glow,
        dx < -glow || dx > glow || dy < -glow || dy > glow,
    ensures
        dist_sq(dx, dy) > glow * glow,
{
    assert(dx * dx + dy * dy > glow * glow) by (nonlinear_arith)
        requires
            0 <= glow,
            dx < -glow || dx > glow || dy < -glow || dy > glow,
    ;
}

/// The square of an offset inside a bounding square whose half side fits in
/// 32 bits is at most `(2^32 - 1)^2`.
proof fn lemma_square_bound(d: int, side: int)
    requires
        -side <= d <= side,
        side <= 0xFFFF_FFFF,
    ensures
        0 <= d * d <= side * side <= 0xFFFF_FFFE_0000_0001,
{
    assert(0 <= d * d <= side * side <= 0xFFFF_FFFE_0000_0001) by (nonlinear_arith)
        requires
            -side <= d <= side,
            side <= 0xFFFF_FFFF,
    ;
}

/// Brings `v` into `0 ..= limit`.
fn clamp_to(v: i128, limit: usize) -> (r: usize)
    ensures
        r == clamped(v as int, limit as int),
{
    if v < 0 {
        0
    } else if v > limit as i128 {
        limit
    } else {
        v as usize
    }
}

/// Draws a body into the buffer: a filled disc of the given radius around
/// the pixel `(x, y)`, and around the disc a glow that fades towards its
/// rim. Whatever falls off the buffer is left out.
pub fn draw_circle(
    fb: &mut FrameBuffer,
    x: i32,
    y: i32,
    radius: i32,
    color: u32,
    is_central: bool,
)
    requires
        old(fb).wf(),
    ensures
        final(fb).wf(),
        final(fb).spec_width() == old(fb).spec_width(),
        final(fb).spec_height() == old(fb).spec_height(),
        final(fb)@ == painted(
            old(fb)@,
            old(fb).spec_width() as int,
            x as int,
            y as int,
            radius as int,
            glow_radius(radius as int, is_central),
            color,
        ),
{
    let glow: i128 = if is_central {
        radius as i128 * 2
    } else {
        radius as i128 + 2
    };
    let width: usize = fb.width();
    let height: usize = fb.height();
    let cx: i128 = x as i128;
    let cy: i128 = y as i128;
    let ghost start = fb@;
    let ghost w = width as int;
    let ghost h = height as int;
    let ghost r = radius as int;
    let ghost gl = glow as int;
    proof {
        fb.lemma_len();
    }
    if glow < 0 {
        assert(fb@ =~= painted(start, w, x as int, y as int, r, gl, color));
        return ;
    }
    proof {
        lemma_square_bound(gl, gl);
        lemma_square_bound(r, 0x8000_0000);
    }
    let glow_sq: i128 = glow * glow;
    let radius_sq: i128 = (radius as i128) * (radius as i128);

    // Only the pixels of the glow's bounding square that lie on the buffer
    // are visited: columns x0 .. x1 of rows y0 .. y1.
    let x0: usize = clamp_to(cx - glow, width);
    let x1: usize = clamp_to(cx + glow + 1, width);
    let y0: usize = clamp_to(cy - glow, height);
    let y1: usize = clamp_to(cy + glow + 1, height);

    assert forall|i: int| 0 <= i < start.len() implies #[trigger] fb@[i] == partly(
        start,
        i,
        i / w < y0,
        w,
        cx as int,
        cy as int,
        r,
        gl,
        color,
    ) by {
        lemma_index_split(i, w, h);
        if i / w < y0 {
            lemma_beyond_glow(i % w - cx, i / w - cy, gl);
        }
    }

    let mut py: usize = y0;
    while py < y1
        invariant
            fb.wf(),
            fb.spec_width() == width,
            fb.spec_height() == height,
            fb@.len() == start.len(),
            start.len() == w * h,
            w == width,
            h == height,
            r == radius,
            gl == glow,
            cx == x,
            cy == y,
            0 <= glow <= 0xFFFF_FFFE,
            glow_sq == glow * glow,
            radius_sq == radius * radius,
            0 <= radius_sq,
            0 <= glow_sq <= 0xFFFF_FFFE_0000_0001,
            x0 == clamped(cx - glow, w),
            x1 == clamped(cx + glow + 1, w),
            y0 == clamped(cy - glow, h),
            y1 == clamped(cy + glow + 1, h),
            y0 <= py <= y1,
            forall|i: int|
                0 <= i < start.len() ==> #[trigger] fb@[i] == partly(
                    start,
                    i,
                    i / w < py,
                    w,
                    cx as int,
                    cy as int,
                    r,
                    gl,
                    color,
                ),
        decreases y1 - py,
    {
        let dy: i128 = py as i128 - cy;
        proof {
            lemma_square_bound(dy as int, gl);
        }
        let dy_sq: i128 = dy * dy;

        // Left of column x0 the row lies beyond the glow.
        assert forall|i: int| 0 <= i < start.len() implies #[trigger] fb@[i] == partly(
            start,
            i,
            i / w < py || (i / w == py && i % w < x0),
            w,
            cx as int,
            cy as int,
            r,
            gl,
            color,
        ) by {
            lemma_index_split(i, w, h);
            if i / w == py && i % w < x0 {
                lemma_beyond_glow(i % w - cx, i / w - cy, gl);
            }
        }

        let mut px: usize = x0;
        while px < x1
            invariant
                fb.wf(),
                fb.spec_width() == width,
                fb.spec_height() == height,
                fb@.len() == start.len(),
                start.len() == w * h,
                w == width,
                h == height,
                r == radius,
                gl == glow,
                cx == x,
                cy == y,
                0 <= glow <= 0xFFFF_FFFE,
                glow_sq == glow * glow,
                radius_sq == radius * radius,
                0 <= radius_sq,
                0 <= glow_sq <= 0xFFFF_FFFE_0000_0001,
                x0 == clamped(cx - glow, w),
                x1 == clamped(cx + glow + 1, w),
                py < height,
                dy == py - cy,
                dy_sq == dy * dy,
                0 <= dy_sq <= glow_sq,
                x0 <= px <= x1,
                forall|i: int|
                    0 <= i < start.len() ==> #[trigger] fb@[i] == partly(
                        start,
                        i,
                        i / w < py || (i / w == py && i % w < px),
                        w,
                        cx as int,
                        cy as int,
                        r,
                        gl,
                        color,
                    ),
            decreases x1 - px,
        {
            let dx: i128 = px as i128 - cx;
            proof {
                lemma_square_bound(dx as int, gl);
                lemma_index_join(px as int, py as int, w, h);
            }
            let d: i128 = dx * dx + dy_sq;
            let ghost before = fb@;
            let ghost index = pixel_index(px as int, py as int, w);
            if d <= glow_sq {
                let shown: u32 = if d <= radius_sq {
                    color
                } else {
                    dim(color, (glow_sq - d) as u64, glow_sq as u64)
                };
                fb.set(px, py, shown);
                assert(fb@ == before.update(index, shown));
                assert(shown == shade(start[index], dx as int, dy as int, r, gl, color));
            }
            assert forall|i: int| 0 <= i < start.len() implies #[trigger] fb@[i] == partly(
                start,
                i,
                i / w < py || (i / w == py && i % w < px + 1),
                w,
                cx as int,
                cy as int,
                r,
                gl,
                color,
            ) by {
                lemma_index_split(i, w, h);
                if i != index {
                    assert(fb@[i] == before[i]);
                }
            }
            px = px + 1;
        }

        // From column x1 on the row lies beyond the glow.
        assert forall|i: int| 0 <= i < start.len() implies #[trigger] fb@[i] == partly(
            start,
            i,
            i / w < py + 1,
            w,
            cx as int,
            cy as int,
            r,
            gl,
            color,
        ) by {
            lemma_index_split(i, w, h);
            if i / w == py && i % w >= x1 {
                lemma_beyond_glow(i % w - cx, i / w - cy, gl);
            }
        }
        py = py + 1;
    }

    // From row y1 on the buffer lies beyond the glow.
    assert forall|i: int| 0 <= i < start.len() implies #[trigger] fb@[i] == partly(
        start,
        i,
        true,
        w,
        cx as int,
        cy as int,
        r,
        gl,
        color,
    ) by {
        lemma_index_split(i, w, h);
        if i / w >= y1 {
            lemma_beyond_glow(i % w - cx, i / w - cy, gl);
        }
    }
    assert(fb@ =~= painted(start, w, x as int, y as int, r, gl, color));
}

/// A body as the rasterizer sees it: the pixel its centre falls on, its
/// radius in pixels and its colour.
#[derive(Clone, Copy, Debug)]
pub struct Disc {
    pub x: i32,
    pub y: i32,
    pub radius: i32,
    pub color: u32,
}

/// The pixels after one of the bodies around the central one has been
/// drawn over `pixels`.
pub open spec fn painted_satellite(pixels: Seq<u32>, width: int, disc: Disc) -> Seq<u32> {
    painted(
        pixels,
        width,
        disc.x as int,
        disc.y as int,
        disc.radius as int,
        glow_radius(disc.radius as int, false),
        disc.color,
    )
}

/// The pixels after the central body has been drawn over `pixels`: in its
/// own fixed colour, with the wider glow.
pub open spec fn painted_central(pixels: Seq<u32>, width: int, disc: Disc) -> Seq<u32> {
    painted(
        pixels,
        width,
        disc.x as int,
        disc.y as int,
        disc.radius as int,
        glow_radius(disc.radius as int, true),
        CENTRAL_COLOR,
    )
}

/// The pixels after the bodies `discs[1]` to `discs[upto - 1]` have been
/// drawn over `pixels`, in that order.
pub open spec fn painted_satellites(
    pixels: Seq<u32>,
    width: int,
    discs: Seq<Disc>,
    upto: int,
) -> Seq<u32>
    decreases upto,
{
    if upto <= 1 {
        pixels
    } else {
        painted_satellite(
            painted_satellites(pixels, width, discs, upto - 1),
            width,
            discs[upto - 1],
        )
    }
}

/// The pixels after all bodies have been drawn over `pixels`: the bodies
/// around the central one first, in the order of the collection, and the
/// central body `discs[0]` last, on top of them.
pub open spec fn scene(pixels: Seq<u32>, width: int, discs: Seq<Disc>) -> Seq<u32> {
    if discs.len() == 0 {
        pixels
    } else {
        painted_central(
            painted_satellites(pixels, width, discs, discs.len() as int),
            width,
            discs[0],
        )
    }
}

/// Draws all bodies into the buffer, the central body `discs[0]` last so
/// that its glow lies over the others.
pub fn draw_bodies(fb: &mut FrameBuffer, discs: &Vec<Disc>)
    requires
        old(fb).wf(),
    ensures
        final(fb).wf(),
        final(fb).spec_width() == old(fb).spec_width(),
        final(fb).spec_height() == old(fb).spec_height(),
        final(fb)@ == scene(old(fb)@, old(fb).spec_width() as int, discs@),
{
    let count: usize = discs.len();
    if count == 0 {
        return ;
    }
    let ghost start = fb@;
    let ghost width = fb.spec_width() as int;
    let mut i: usize = 1;
    while i < count
        invariant
            1 <= i <= count,
            count == discs@.len(),
            fb.wf(),
            fb.spec_width() == width,
            fb.spec_height() == old(fb).spec_height(),
            fb@ == painted_satellites(start, width, discs@, i as int),
        decreases count - i,
    {
        let disc: Disc = discs[i];
        draw_circle(fb, disc.x, disc.y, disc.radius, disc.color, false);
        i = i + 1;
    }
    let central: Disc = discs[0];
    draw_circle(fb, central.x, central.y, central.radius, CENTRAL_COLOR, true);
}

/// Renders a frame: clears the buffer to the background and draws all
/// bodies. Nothing of the previous frame is left.
pub fn render_frame(fb: &mut FrameBuffer, discs: &Vec<Disc>)
    requires
        old(fb).wf(),
    ensures
        final(fb).wf(),
        final(fb).spec_width() == old(fb).spec_width(),
        final(fb).spec_height() == old(fb).spec_height(),
        final(fb)@ == scene(
            Seq::new(old(fb)@.len(), |i: int| BACKGROUND),
            old(fb).spec_width() as int,
            discs@,
        ),
{
    fb.clear(BACKGROUND);
    draw_bodies(fb, discs);
}

/// Drawing keeps the number of pixels, and the pixel in column `px` of row
/// `py` is shaded by its offset from the body's centre.
pub proof fn lemma_painted_at(
    pixels: Seq<u32>,
    width: int,
    height: int,
    x: int,
    y: int,
    radius: int,
    glow: int,
    color: u32,
    px: int,
    py: int,
)
    requires
        pixels.len() == width * height,
        0 <= px < width,
        0 <= py < height,
    ensures
        painted(pixels, width, x, y, radius, glow, color).len() == pixels.len(),
        0 <= pixel_index(px, py, width) < pixels.len(),
        painted(pixels, width, x, y, radius, glow, color)[pixel_index(px, py, width)] == shade(
            pixels[pixel_index(px, py, width)],
            px - x,
            py - y,
            radius,
            glow,
            color,
        ),
{
    lemma_index_join(px, py, width, height);
}

/// Drawing the same body a second time changes nothing.
pub proof fn lemma_painted_idempotent(
    pixels: Seq<u32>,
    width: int,
    x: int,
    y: int,
    radius: int,
    glow: int,
    color: u32,
)
    ensures
        painted(painted(pixels, width, x, y, radius, glow, color), width, x, y, radius, glow, color)
            == painted(pixels, width, x, y, radius, glow, color),
{
    assert(painted(
        painted(pixels, width, x, y, radius, glow, color),
        width,
        x,
        y,
        radius,
        glow,
        color,
    ) =~= painted(pixels, width, x, y, radius, glow, color));
}

/// In the glow, between the disc and the rim, no channel is brighter than
/// the body's, every lit channel is darker, and on the rim itself the pixel
/// is black.
pub proof fn lemma_glow_fades(under: u32, dx: int, dy: int, radius: int, glow: int, color: u32)
    requires
        0 <= glow,
        radius * radius < dist_sq(dx, dy) <= glow * glow,
    ensures
        red_of(shade(under, dx, dy, radius, glow, color)) <= red_of(color),
        green_of(shade(under, dx, dy, radius, glow, color)) <= green_of(color),
        blue_of(shade(under, dx, dy, radius, glow, color)) <= blue_of(color),
        0 < red_of(color) ==> red_of(shade(under, dx, dy, radius, glow, color)) < red_of(color),
        0 < green_of(color) ==> green_of(shade(under, dx, dy, radius, glow, color)) < green_of(
            color,
        ),
        0 < blue_of(color) ==> blue_of(shade(under, dx, dy, radius, glow, color)) < blue_of(color),
        dist_sq(dx, dy) == glow * glow ==> shade(under, dx, dy, radius, glow, color) == 0,
{
    let den = glow * glow;
    let num = den - dist_sq(dx, dy);
    assert(0 <= radius * radius) by (nonlinear_arith);
    lemma_dimmed_channels(color, num, den);
    lemma_scaled_bounds(red_of(color) as int, num, den);
    lemma_scaled_bounds(green_of(color) as int, num, den);
    lemma_scaled_bounds(blue_of(color) as int, num, den);
    if num == 0 {
        lemma_dimmed_to_black(color, den);
    }
}

/// Wherever the central body's disc or glow reaches, the frame shows the
/// central body, whatever the other bodies have drawn there.
pub proof fn lemma_central_on_top(pixels: Seq<u32>, width: int, discs: Seq<Disc>, i: int)
    requires
        0 < discs.len(),
        0 <= i < pixels.len(),
        0 <= discs[0].radius,
        dist_sq(i % width - discs[0].x, i / width - discs[0].y) <= (discs[0].radius * 2) * (
        discs[0].radius * 2),
    ensures
        scene(pixels, width, discs).len() == pixels.len(),
        scene(pixels, width, discs)[i] == shade(
            0,
            i % width - discs[0].x,
            i / width - discs[0].y,
            discs[0].radius as int,
            discs[0].radius * 2,
            CENTRAL_COLOR,
        ),
{
    lemma_painted_satellites_len(pixels, width, discs, discs.len() as int);
}

/// Drawing the bodies around the central one keeps the number of pixels.
pub proof fn lemma_painted_satellites_len(
    pixels: Seq<u32>,
    width: int,
    discs: Seq<Disc>,
    upto: int,
)
    ensures
        painted_satellites(pixels, width, discs, upto).len() == pixels.len(),
    decreases upto,
{
    if upto > 1 {
        lemma_painted_satellites_len(pixels, width, discs, upto - 1);
    }
}

} // verus!
