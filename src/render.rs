use vstd::prelude::*;

verus! {

/// Where the pixel stored at `slot` of a `width` by `height` image sits on the
/// image plane, as `(column from the left, row from the bottom)`. The image is
/// stored row by row with its top row first, so rows are counted the other way.
pub fn pixel_position(slot: usize, width: u32, height: u32) -> (r: (u32, u32))
    requires
        width >= 1,
        slot < width as int * height as int,
    ensures
        r.0 as int == slot as int % width as int,
        r.1 as int == height as int - 1 - slot as int / width as int,
{
    let w = width as usize;
    let column = slot % w;
    let row_from_top = slot / w;
    proof {
        assert(row_from_top < height) by (nonlinear_arith)
            requires row_from_top == slot as int / w as int, slot < w as int * height as int, w >= 1;
    }
    (column as u32, height - 1 - row_from_top as u32)
}

} // verus!
