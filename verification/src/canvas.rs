//! A rectangular grid of pixels, stored row by row.

use vstd::prelude::*;

verus! {

/// A `width` by `height` grid of pixels of any kind. The pixel in column `x`
/// of row `y` is at place `y * width + x`.
pub struct Canvas<P> {
    width: usize,
    height: usize,
    pixels: Vec<P>,
}

impl<P: Copy> Canvas<P> {
    pub closed spec fn spec_width(&self) -> nat {
        self.width as nat
    }

    pub closed spec fn spec_height(&self) -> nat {
        self.height as nat
    }

    /// The pixels, row by row.
    pub closed spec fn pixels(&self) -> Seq<P> {
        self.pixels@
    }

    /// There is one pixel for each place of the grid, and the places can be
    /// counted in a machine word.
    pub closed spec fn well_formed(&self) -> bool {
        self.pixels@.len() == self.width * self.height && self.width * self.height <= usize::MAX
    }

    /// A canvas with every pixel set to `fill`.
    pub fn new(width: usize, height: usize, fill: P) -> (c: Self)
        requires
            width * height <= usize::MAX,
        ensures
            c.well_formed(),
            c.spec_width() == width,
            c.spec_height() == height,
            c.pixels().len() == width * height,
            forall|i: int| 0 <= i < width * height ==> c.pixels()[i] == fill,
    {
        let count = width * height;
        let mut pixels: Vec<P> = Vec::new();
        let mut i: usize = 0;
        while i < count
            invariant
                i <= count,
                pixels@.len() == i,
                forall|k: int| 0 <= k < i ==> pixels@[k] == fill,
            decreases count - i,
        {
            pixels.push(fill);
            i += 1;
        }
        Self { width, height, pixels }
    }

    pub fn get_width(&self) -> (w: usize)
        ensures
            w == self.spec_width(),
    {
        self.width
    }

    pub fn get_height(&self) -> (h: usize)
        ensures
            h == self.spec_height(),
    {
        self.height
    }

    /// Puts `color` in column `x` of row `y` and leaves every other pixel as
    /// it is.
    pub fn set_pixel(&mut self, x: usize, y: usize, color: P)
        requires
            old(self).well_formed(),
            y * old(self).spec_width() + x < old(self).spec_width() * old(self).spec_height(),
        ensures
            final(self).well_formed(),
            final(self).spec_width() == old(self).spec_width(),
            final(self).spec_height() == old(self).spec_height(),
            final(self).pixels() == old(self).pixels().update(
                y * old(self).spec_width() + x,
                color,
            ),
    {
        proof {
            lemma_row_start(y as int, self.width as int);
        }
        let index = y * self.width + x;
        self.pixels.set(index, color);
    }

    /// The pixel in column `x` of row `y`.
    pub fn pixel_at(&self, x: usize, y: usize) -> (p: P)
        requires
            self.well_formed(),
            y * self.spec_width() + x < self.spec_width() * self.spec_height(),
        ensures
            p == self.pixels()[y * self.spec_width() + x],
    {
        proof {
            lemma_row_start(y as int, self.width as int);
        }
        self.pixels[y * self.width + x]
    }
}

/// The place at which a row starts is not negative.
proof fn lemma_row_start(y: int, width: int)
    by (nonlinear_arith)
    requires
        0 <= y,
        0 <= width,
    ensures
        0 <= y * width,
{
}

} // verus!
