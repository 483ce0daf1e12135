use vstd::prelude::*;

use crate::color::Rgba;

verus! {

/// A rectangle of pixels, stored row by row from the top.
#[derive(Clone, Debug, PartialEq, Eq)]
pub struct Canvas {
    width: u32,
    height: u32,
    pixels: Vec<Rgba>,
}

/// A place in a `width` by `height` rectangle has its own index in the
/// row-major order, and no other place shares it.
pub proof fn lemma_row_major(width: int, height: int, x: int, y: int)
    requires
        0 <= x < width,
        0 <= y < height,
    ensures
        0 <= y * width <= y * width + x < width * height,
        (y * width + x) / width == y,
        (y * width + x) % width == x,
{
    assert(0 <= y * width <= y * width + x < width * height && (y * width + x) / width == y && (y
        * width + x) % width == x) by (nonlinear_arith)
        requires
            0 <= x < width,
            0 <= y < height,
    ;
}

impl Canvas {
    /// There is one stored pixel for each place.
    pub closed spec fn wf(&self) -> bool {
        self.pixels@.len() == self.width * self.height
    }

    /// The number of columns.
    pub closed spec fn spec_width(&self) -> int {
        self.width as int
    }

    /// The number of rows.
    pub closed spec fn spec_height(&self) -> int {
        self.height as int
    }

    /// Whether `(x, y)` is a place on the canvas.
    pub open spec fn contains(&self, x: int, y: int) -> bool {
        0 <= x < self.spec_width() && 0 <= y < self.spec_height()
    }

    /// The colour at column `x` of row `y`.
    pub closed spec fn pixel(&self, x: int, y: int) -> Rgba {
        self.pixels@[y * self.width + x]
    }

    /// The pixels row by row, as an encoder wants them.
    pub closed spec fn row_major(&self) -> Seq<Rgba> {
        self.pixels@
    }

    /// Whether a canvas of this size can be addressed on this machine.
    pub fn can_hold(width: u32, height: u32) -> (b: bool)
        ensures
            b == (width * height <= usize::MAX),
    {
        assert(width * height <= 0xFFFF_FFFF_FFFF_FFFF) by (nonlinear_arith)
            requires
                width <= 0xFFFF_FFFF,
                height <= 0xFFFF_FFFF,
        ;
        width as u64 * height as u64 <= usize::MAX as u64
    }

    /// A canvas of the given size with every pixel transparent.
    pub fn new(width: u32, height: u32) -> (canvas: Canvas)
        requires
            width * height <= usize::MAX,
        ensures
            canvas.wf(),
            canvas.spec_width() == width,
            canvas.spec_height() == height,
            forall|x: int, y: int|
                canvas.contains(x, y) ==> #[trigger] canvas.pixel(x, y) == (Rgba {
                    r: 0,
                    g: 0,
                    b: 0,
                    a: 0,
                }),
    {
        let count: usize = width as usize * height as usize;
        let mut pixels: Vec<Rgba> = Vec::new();
        let mut i: usize = 0;
        while i < count
            invariant
                i <= count,
                pixels@.len() == i,
                forall|k: int| 0 <= k < i ==> pixels@[k] == (Rgba { r: 0, g: 0, b: 0, a: 0 }),
            decreases count - i,
        {
            pixels.push(Rgba::transparent());
            i = i + 1;
        }
        let canvas = Canvas { width, height, pixels };
        assert forall|x: int, y: int| canvas.contains(x, y) implies #[trigger] canvas.pixel(x, y)
            == (Rgba { r: 0, g: 0, b: 0, a: 0 }) by {
            lemma_row_major(width as int, height as int, x, y);
        }
        canvas
    }

    /// The number of columns.
    pub fn width(&self) -> (w: u32)
        ensures
            w == self.spec_width(),
    {
        self.width
    }

    /// The number of rows.
    pub fn height(&self) -> (h: u32)
        ensures
            h == self.spec_height(),
    {
        self.height
    }

    /// Reads the pixel at column `x` of row `y`.
    pub fn get_pixel(&self, x: u32, y: u32) -> (c: Rgba)
        requires
            self.wf(),
            self.contains(x as int, y as int),
        ensures
            c == self.pixel(x as int, y as int),
    {
        proof {
            lemma_row_major(self.width as int, self.height as int, x as int, y as int);
        }
        let count = self.pixels.len();
        self.pixels[y as usize * self.width as usize + x as usize]
    }

    /// Sets the pixel at column `x` of row `y` and leaves the others alone.
    pub fn set_pixel(&mut self, x: u32, y: u32, color: Rgba)
        requires
            old(self).wf(),
            old(self).contains(x as int, y as int),
        ensures
            final(self).wf(),
            final(self).spec_width() == old(self).spec_width(),
            final(self).spec_height() == old(self).spec_height(),
            final(self).pixel(x as int, y as int) == color,
            forall|a: int, b: int|
                old(self).contains(a, b) && (a != x || b != y) ==> #[trigger] final(self).pixel(a, b)
                    == old(self).pixel(a, b),
    {
        proof {
            lemma_row_major(self.width as int, self.height as int, x as int, y as int);
        }
        let count = self.pixels.len();
        let index: usize = y as usize * self.width as usize + x as usize;
        self.pixels[index] = color;
        assert forall|a: int, b: int| old(self).contains(a, b) && (a != x || b != y) implies #[trigger] self.pixel(
            a,
            b,
        ) == old(self).pixel(a, b) by {
            lemma_row_major(self.width as int, self.height as int, a, b);
        }
    }

    /// The pixels row by row, for an encoder to read.
    pub fn pixels(&self) -> (p: &Vec<Rgba>)
        ensures
            p@ == self.row_major(),
    {
        &self.pixels
    }
}

/// The rows of a canvas follow one another in its row-major pixels.
pub proof fn lemma_row_major_pixels(canvas: Canvas, x: int, y: int)
    requires
        canvas.wf(),
        canvas.contains(x, y),
    ensures
        canvas.row_major().len() == canvas.spec_width() * canvas.spec_height(),
        0 <= y * canvas.spec_width() + x < canvas.row_major().len(),
        canvas.row_major()[y * canvas.spec_width() + x] == canvas.pixel(x, y),
{
    lemma_row_major(canvas.spec_width(), canvas.spec_height(), x, y);
}

} // verus!
