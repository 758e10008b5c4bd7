//! Row-major pixel grids: the two colours and how a pixel is addressed.

use vstd::prelude::*;

verus! {

/// Colour of every pixel that no stroke covers (black).
pub const BACKGROUND: u32 = 0x000000;

/// Colour of the waveform stroke (bright green).
pub const WAVEFORM: u32 = 0x00FF00;

/// Column of the pixel stored at `idx` in a row-major canvas `width` wide.
pub open spec fn col_of(idx: int, width: int) -> int {
    idx % width
}

/// Row of the pixel stored at `idx` in a row-major canvas `width` wide.
pub open spec fn row_of(idx: int, width: int) -> int {
    idx / width
}

/// A pixel holds one of the two colours of the palette.
pub open spec fn in_palette(pixel: u32) -> bool {
    pixel == BACKGROUND || pixel == WAVEFORM
}

/// A grid of `width` by `height` pixels, each in one of the two colours.
pub open spec fn is_canvas(pixels: Seq<u32>, width: int, height: int) -> bool {
    &&& pixels.len() == width * height
    &&& forall|idx: int| 0 <= idx < pixels.len() ==> in_palette(#[trigger] pixels[idx])
}

/// The canvas of `width` by `height` pixels in which every pixel carries
/// the background colour.
pub open spec fn blank(width: int, height: int) -> Seq<u32> {
    Seq::new((width * height) as nat, |idx: int| BACKGROUND)
}

/// The pixel at `(col, row)` of a canvas `width` wide is stored at
/// `row * width + col`, and that place gives the column and the row back.
pub proof fn lemma_pixel_address(col: int, row: int, width: int)
    requires
        0 <= col < width,
        0 <= row,
    ensures
        0 <= row * width + col,
        col_of(row * width + col, width) == col,
        row_of(row * width + col, width) == row,
{
    vstd::arithmetic::div_mod::lemma_fundamental_div_mod_converse(
        row * width + col,
        width,
        row,
        col,
    );
    assert(row * width >= 0) by (nonlinear_arith)
        requires
            row >= 0,
            width > 0,
    ;
}

/// Every place below `width * height` lies in a column below `width` and a
/// row below `height`.
pub proof fn lemma_address_in_canvas(idx: int, width: int, height: int)
    requires
        0 <= idx < width * height,
        0 <= width,
        0 <= height,
    ensures
        0 < width,
        0 <= col_of(idx, width) < width,
        0 <= row_of(idx, width) < height,
        idx == row_of(idx, width) * width + col_of(idx, width),
{
    assert(width > 0) by (nonlinear_arith)
        requires
            0 <= idx < width * height,
            0 <= width,
    ;
    vstd::arithmetic::div_mod::lemma_fundamental_div_mod(idx, width);
    vstd::arithmetic::div_mod::lemma_mod_bound(idx, width);
    let q = idx / width;
    let r = idx % width;
    assert(idx == width * q + r);
    assert(q >= 0 && q < height) by (nonlinear_arith)
        requires
            idx == width * q + r,
            0 <= r < width,
            0 <= idx < width * height,
            0 <= height,
    ;
    assert(width * q == q * width) by (nonlinear_arith);
}

} // verus!
