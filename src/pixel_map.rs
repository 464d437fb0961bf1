use vstd::prelude::*;

verus! {

/// How a decoded image is turned before use.
#[derive(Clone, Copy, Debug, PartialEq, Eq, Structural)]
pub enum Rotate {
    R0,
    R90,
    R180,
    R270,
}

/// `i` moved into `[0, n)`: indices past the edge read the last row or column.
pub open spec fn clamped(i: u32, n: u32) -> u32 {
    if i >= n { (n - 1) as u32 } else { i }
}

/// A grid of `width` by `height` samples, stored row by row: sample `(i, j)` is
/// at `i + width * j`.
pub struct PixelMap<C> {
    pixels: Vec<C>,
    width: u32,
    height: u32,
}

impl<C> PixelMap<C> {
    #[verifier::type_invariant]
    closed spec fn inv(self) -> bool {
        &&& self.width >= 1
        &&& self.height >= 1
        &&& self.pixels@.len() == self.width as int * self.height as int
    }

    pub closed spec fn spec_pixels(self) -> Seq<C> {
        self.pixels@
    }

    pub closed spec fn spec_width(self) -> u32 {
        self.width
    }

    pub closed spec fn spec_height(self) -> u32 {
        self.height
    }

    /// The sample at column `i`, row `j`, each clamped to the grid.
    pub open spec fn sample(self, i: u32, j: u32) -> C {
        self.spec_pixels()[clamped(i, self.spec_width()) + self.spec_width() * clamped(j, self.spec_height())]
    }

}

impl<C: Copy> PixelMap<C> {
    /// The grid of `pixels`, or `None` when a side is empty or the count is not
    /// `width * height`.
    pub fn new(pixels: Vec<C>, width: u32, height: u32) -> (r: Option<Self>)
        ensures
            r.is_some() <==> width >= 1 && height >= 1 && pixels@.len() == width as int * height as int,
            r matches Some(m) ==> m.spec_pixels() == pixels@ && m.spec_width() == width && m.spec_height() == height,
    {
        if width == 0 || height == 0 {
            return None;
        }
        let n = pixels.len();
        if n / (width as usize) != height as usize || n % (width as usize) != 0 {
            proof {
                if n as int == width as int * height as int {
                    assert((width as int * height as int) / width as int == height as int) by (nonlinear_arith)
                        requires width >= 1;
                    assert((width as int * height as int) % width as int == 0) by (nonlinear_arith)
                        requires width >= 1;
                }
            }
            return None;
        }
        proof {
            let w = width as int;
            assert(n as int == w * (n as int / w) + n as int % w) by (nonlinear_arith)
                requires w >= 1;
        }
        Some(PixelMap { pixels, width, height })
    }

    pub fn width(&self) -> (r: u32)
        ensures
            r == self.spec_width(),
            r >= 1,
    {
        proof {
            use_type_invariant(self);
        }
        self.width
    }

    pub fn height(&self) -> (r: u32)
        ensures
            r == self.spec_height(),
            r >= 1,
    {
        proof {
            use_type_invariant(self);
        }
        self.height
    }

    /// The sample at `pos = (column, row)`, clamped to the grid.
    pub fn get_pixel(&self, pos: (u32, u32)) -> (r: C)
        ensures
            r == self.sample(pos.0, pos.1),
    {
        proof {
            use_type_invariant(self);
        }
        let i = if pos.0 >= self.width { self.width - 1 } else { pos.0 };
        let j = if pos.1 >= self.height { self.height - 1 } else { pos.1 };
        let n = self.pixels.len();
        proof {
            let (w, h) = (self.width as int, self.height as int);
            assert((i as int) + w * (j as int) < w * h) by (nonlinear_arith)
                requires i < w, j < h, 0 <= i, 0 <= j;
            assert(w * (j as int) >= 0) by (nonlinear_arith)
                requires w >= 0, j >= 0;
        }
        self.pixels[i as usize + self.width as usize * j as usize]
    }
}

} // verus!
