use vstd::prelude::*;

verus! {

/// The pixel at column `x` of row `y` of pixels `s` stored row by row, `w` to a row.
pub open spec fn pixel_at<P>(s: Seq<P>, w: int, x: int, y: int) -> P {
    s[y * w + x]
}

/// Pixels are stored row by row from the top left: the first pixel is (0, 0), each pixel
/// of a row is followed by the one to its right, and the last pixel of a row by the first
/// of the next row.
pub proof fn lemma_row_major<P>(s: Seq<P>, w: int, x: int, y: int)
    requires
        w > 0,
        0 <= x < w,
        0 <= y,
        (y + 1) * w < s.len(),
    ensures
        pixel_at(s, w, 0, 0) == s[0],
        x + 1 < w ==> pixel_at(s, w, x + 1, y) == s[y * w + x + 1],
        pixel_at(s, w, w - 1, y) == s[(y + 1) * w - 1],
        pixel_at(s, w, 0, y + 1) == s[(y + 1) * w],
{
    assert(y * w + (w - 1) == (y + 1) * w - 1) by (nonlinear_arith);
    assert((y + 1) * w + 0 == (y + 1) * w) by (nonlinear_arith);
    assert(0 * w + 0 == 0) by (nonlinear_arith);
}

/// A cell of a `w` by `h` grid lies before the end of the grid, row by row.
pub proof fn lemma_index_in(x: int, y: int, w: int, h: int)
    requires
        0 <= x < w,
        0 <= y < h,
    ensures
        0 <= y * w <= y * w + x < w * h,
{
    assert(0 <= y * w <= y * w + x < w * h) by (nonlinear_arith)
        requires
            0 <= x < w,
            0 <= y < h,
    ;
}

/// Two cells of a grid `w` wide that differ lie at different places, row by row.
pub proof fn lemma_index_unique(x1: int, y1: int, x2: int, y2: int, w: int)
    requires
        0 <= x1 < w,
        0 <= x2 < w,
        0 <= y1,
        0 <= y2,
        x1 != x2 || y1 != y2,
    ensures
        y1 * w + x1 != y2 * w + x2,
{
    if y1 == y2 {
    } else if y1 < y2 {
        assert(y1 * w + x1 < y2 * w + x2) by (nonlinear_arith)
            requires
                0 <= x1 < w,
                0 <= x2,
                y1 < y2,
        ;
    } else {
        assert(y2 * w + x2 < y1 * w + x1) by (nonlinear_arith)
            requires
                0 <= x2 < w,
                0 <= x1,
                y2 < y1,
        ;
    }
}

/// A `width` by `height` image, its pixels row by row from the top.
pub struct PixelBuffer<P> {
    pub width: u32,
    pub height: u32,
    pub pixels: Vec<P>,
}

impl<P: Copy> PixelBuffer<P> {
    /// Whether there is one pixel for each cell.
    pub open spec fn wf(&self) -> bool {
        self.pixels@.len() == self.width as int * self.height as int
    }

    /// The pixel at column `x` of row `y`.
    pub open spec fn spec_pixel(&self, x: int, y: int) -> P {
        pixel_at(self.pixels@, self.width as int, x, y)
    }

    /// A `width` by `height` image with every pixel `fill`.
    pub fn new(width: u32, height: u32, fill: P) -> (b: Self)
        requires
            width as int * height as int <= usize::MAX,
        ensures
            b.wf(),
            b.width == width,
            b.height == height,
            forall|i: int| 0 <= i < b.pixels@.len() ==> #[trigger] b.pixels@[i] == fill,
    {
        let n: usize = (width as usize) * (height as usize);
        let mut pixels: Vec<P> = Vec::new();
        let mut i: usize = 0;
        while i < n
            invariant
                i <= n,
                pixels@.len() == i,
                forall|j: int| 0 <= j < i ==> #[trigger] pixels@[j] == fill,
            decreases n - i,
        {
            pixels.push(fill);
            i = i + 1;
        }
        PixelBuffer { width, height, pixels }
    }

    /// The width and the height.
    pub fn dimensions(&self) -> (r: (u32, u32))
        ensures
            r == (self.width, self.height),
    {
        (self.width, self.height)
    }

    /// The pixel at column `x` of row `y`.
    pub fn get_pixel(&self, x: u32, y: u32) -> (p: P)
        requires
            self.wf(),
            x < self.width,
            y < self.height,
        ensures
            p == self.spec_pixel(x as int, y as int),
    {
        proof {
            lemma_index_in(x as int, y as int, self.width as int, self.height as int);
            assert(self.pixels@.len() == self.pixels.len());
        }
        self.pixels[(y as usize) * (self.width as usize) + (x as usize)]
    }

    /// Sets the pixel at column `x` of row `y` to `p`.
    pub fn put_pixel(&mut self, x: u32, y: u32, p: P)
        requires
            old(self).wf(),
            x < old(self).width,
            y < old(self).height,
        ensures
            final(self).width == old(self).width,
            final(self).height == old(self).height,
            final(self).pixels@ == old(self).pixels@.update(y * old(self).width + x, p),
            final(self).wf(),
    {
        proof {
            lemma_index_in(x as int, y as int, self.width as int, self.height as int);
            assert(self.pixels@.len() == self.pixels.len());
        }
        let i: usize = (y as usize) * (self.width as usize) + (x as usize);
        self.pixels.set(i, p);
    }
}

} // verus!
