//! The frame buffer: a flat, row-major array of packed colours.

use vstd::prelude::*;

verus! {

/// Width in pixels of the frame the simulator renders.
pub const WIDTH: usize = 3840;

/// Height in pixels of the frame the simulator renders.
pub const HEIGHT: usize = 2160;

/// Position in a row-major array of the pixel in column `x` of row `y`.
pub open spec fn pixel_index(x: int, y: int, width: int) -> int {
    y * width + x
}

/// A flat index and its column and row name the same pixel.
pub proof fn lemma_index_split(i: int, width: int, height: int)
    requires
        0 <= i < width * height,
        0 <= width,
        0 <= height,
    ensures
        0 <= i % width < width,
        0 <= i / width < height,
        pixel_index(i % width, i / width, width) == i,
{
    assert(width > 0) by (nonlinear_arith)
        requires
            0 <= i < width * height,
            0 <= width,
    ;
    vstd::arithmetic::div_mod::lemma_fundamental_div_mod(i, width);
    vstd::arithmetic::div_mod::lemma_mod_bound(i, width);
    assert(0 <= i / width < height) by (nonlinear_arith)
        requires
            0 <= i < width * height,
            0 < width,
            i == width * (i / width) + i % width,
            0 <= i % width < width,
    ;
    assert(width * (i / width) == (i / width) * width) by (nonlinear_arith);
}

/// A column and a row inside the buffer give a flat index inside it, from
/// which both can be read back.
pub proof fn lemma_index_join(x: int, y: int, width: int, height: int)
    requires
        0 <= x < width,
        0 <= y < height,
    ensures
        0 <= pixel_index(x, y, width) < width * height,
        pixel_index(x, y, width) % width == x,
        pixel_index(x, y, width) / width == y,
{
    assert(0 <= y * width + x < width * height) by (nonlinear_arith)
        requires
            0 <= x < width,
            0 <= y < height,
    ;
    assert(y * width == width * y) by (nonlinear_arith);
    vstd::arithmetic::div_mod::lemma_fundamental_div_mod_converse(
        pixel_index(x, y, width),
        width,
        y,
        x,
    );
}

/// A pixel buffer of `width` columns and `height` rows.
pub struct FrameBuffer {
    width: usize,
    height: usize,
    pixels: Vec<u32>,
}

impl View for FrameBuffer {
    type V = Seq<u32>;

    /// The pixels, row after row.
    closed spec fn view(&self) -> Seq<u32> {
        self.pixels@
    }
}

impl FrameBuffer {
    /// Number of columns.
    pub closed spec fn spec_width(&self) -> usize {
        self.width
    }

    /// Number of rows.
    pub closed spec fn spec_height(&self) -> usize {
        self.height
    }

    /// The buffer holds exactly one pixel for each column of each row.
    pub closed spec fn wf(&self) -> bool {
        self.pixels@.len() == self.width * self.height
    }

    /// The colour in column `x` of row `y`.
    pub open spec fn at(&self, x: int, y: int) -> u32 {
        self@[pixel_index(x, y, self.spec_width() as int)]
    }

    /// A well-formed buffer has as many pixels as its sides multiply to.
    pub proof fn lemma_len(&self)
        requires
            self.wf(),
        ensures
            self@.len() == self.spec_width() * self.spec_height(),
    {
    }

    /// Makes a buffer of the given size with every pixel set to `fill`, or
    /// `None` where the number of pixels does not fit in a `usize`.
    pub fn new(width: usize, height: usize, fill: u32) -> (made: Option<FrameBuffer>)
        ensures
            made is Some <==> width * height <= usize::MAX,
            made matches Some(fb) ==> {
                &&& fb.wf()
                &&& fb.spec_width() == width
                &&& fb.spec_height() == height
                &&& fb@ == Seq::new((width * height) as nat, |i: int| fill)
            },
    {
        match width.checked_mul(height) {
            None => None,
            Some(count) => {
                let pixels: Vec<u32> = vec![fill; count];
                assert(pixels@ =~= Seq::new((width * height) as nat, |i: int| fill));
                Some(FrameBuffer { width, height, pixels })
            },
        }
    }

    /// Number of columns.
    #[verifier::when_used_as_spec(spec_width)]
    pub fn width(&self) -> (w: usize)
        ensures
            w == self.spec_width(),
    {
        self.width
    }

    /// Number of rows.
    #[verifier::when_used_as_spec(spec_height)]
    pub fn height(&self) -> (h: usize)
        ensures
            h == self.spec_height(),
    {
        self.height
    }

    /// The pixels, row after row, as the presentation layer takes them.
    pub fn pixels(&self) -> (all: &Vec<u32>)
        ensures
            all@ == self@,
    {
        &self.pixels
    }

    /// Reads the pixel in column `x` of row `y`, or `None` off the buffer.
    pub fn get(&self, x: usize, y: usize) -> (found: Option<u32>)
        requires
            self.wf(),
        ensures
            found is Some <==> x < self.spec_width() && y < self.spec_height(),
            found matches Some(color) ==> color == self.at(x as int, y as int),
    {
        if x < self.width && y < self.height {
            let count: usize = self.pixels.len();
            proof {
                lemma_index_join(x as int, y as int, self.width as int, self.height as int);
                assert(y * self.width + x < count);
            }
            Some(self.pixels[y * self.width + x])
        } else {
            None
        }
    }

    /// Writes `color` to the pixel in column `x` of row `y`. Off the buffer
    /// nothing is written. Returns whether the pixel was written.
    pub fn set(&mut self, x: usize, y: usize, color: u32) -> (written: bool)
        requires
            old(self).wf(),
        ensures
            final(self).wf(),
            final(self).spec_width() == old(self).spec_width(),
            final(self).spec_height() == old(self).spec_height(),
            written <==> x < old(self).spec_width() && y < old(self).spec_height(),
            written ==> final(self)@ == old(self)@.update(
                pixel_index(x as int, y as int, old(self).spec_width() as int),
                color,
            ),
            !written ==> final(self)@ == old(self)@,
    {
        if x < self.width && y < self.height {
            let count: usize = self.pixels.len();
            proof {
                lemma_index_join(x as int, y as int, self.width as int, self.height as int);
                assert(y * self.width + x < count);
            }
            let index: usize = y * self.width + x;
            self.pixels.set(index, color);
            true
        } else {
            false
        }
    }

    /// Overwrites every pixel with `color`.
    pub fn clear(&mut self, color: u32)
        ensures
            final(self).wf() == old(self).wf(),
            final(self).spec_width() == old(self).spec_width(),
            final(self).spec_height() == old(self).spec_height(),
            final(self)@ == Seq::new(old(self)@.len(), |i: int| color),
    {
        let count: usize = self.pixels.len();
        let mut i: usize = 0;
        while i < count
            invariant
                i <= count,
                self.pixels@.len() == count,
                self.width == old(self).width,
                self.height == old(self).height,
                forall|k: int| 0 <= k < i ==> self.pixels@[k] == color,
            decreases count - i,
        {
            self.pixels.set(i, color);
            i = i + 1;
        }
        assert(self.pixels@ =~= Seq::new(old(self)@.len(), |k: int| color));
    }
}

} // verus!
