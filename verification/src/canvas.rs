//! A canvas of fixed size that always holds a whole frame.

use vstd::prelude::*;
use crate::error::VisualizerError;
use crate::raster::{blank, is_canvas, BACKGROUND};
use crate::render::{clear, draw_waveform, lemma_rendered_is_canvas, rendered};

verus! {

/// Whether a canvas of `width` by `height` pixels can be held in memory:
/// its bytes, four to the pixel, must number `isize::MAX` at most.
pub open spec fn holdable(width: int, height: int) -> bool {
    4 * (width * height) <= isize::MAX
}

/// `W` by `H` pixels, row by row from the top left corner. Its size never
/// changes, and each of its pixels is in one of the two colours at any
/// time.
#[derive(Debug)]
pub struct Canvas<const W: usize, const H: usize> {
    pixels: Vec<u32>,
}

impl<const W: usize, const H: usize> Canvas<W, H> {
    /// The pixels, row by row.
    pub closed spec fn view(&self) -> Seq<u32> {
        self.pixels@
    }

    /// What holds of every canvas at any time: it has `W * H` pixels, each
    /// in one of the two colours.
    #[verifier::type_invariant]
    pub open spec fn whole(&self) -> bool {
        is_canvas(self@, W as int, H as int)
    }

    /// A canvas in the background colour, or nothing where a canvas of this
    /// size cannot be held in memory.
    pub fn new() -> (canvas: Option<Self>)
        ensures
            canvas is Some <==> holdable(W as int, H as int),
            canvas matches Some(c) ==> c@ == blank(W as int, H as int),
    {
        assert(W * H <= 0xFFFF_FFFF_FFFF_FFFF * 0xFFFF_FFFF_FFFF_FFFF) by (nonlinear_arith)
            requires
                0 <= W <= 0xFFFF_FFFF_FFFF_FFFF,
                0 <= H <= 0xFFFF_FFFF_FFFF_FFFF,
        ;
        let area: u128 = (W as u128) * (H as u128);
        if area > (isize::MAX as u128) / 4 {
            return None;
        }
        let pixels: Vec<u32> = vec![BACKGROUND; area as usize];
        assert(pixels@ =~= blank(W as int, H as int));
        Some(Canvas { pixels })
    }

    /// The number of columns.
    pub fn width(&self) -> (w: usize)
        ensures
            w == W,
    {
        W
    }

    /// The number of rows.
    pub fn height(&self) -> (h: usize)
        ensures
            h == H,
    {
        H
    }

    /// The pixels, row by row, as the window takes them.
    pub fn pixels(&self) -> (pixels: &Vec<u32>)
        ensures
            pixels@ == self@,
            is_canvas(self@, W as int, H as int),
    {
        proof {
            use_type_invariant(self);
        }
        &self.pixels
    }

    /// The colour at column `col` of row `row`, or nothing where the canvas
    /// has no such pixel.
    pub fn get(&self, col: usize, row: usize) -> (pixel: Option<u32>)
        ensures
            pixel == (if col < W && row < H {
                Some(self@[row * W + col])
            } else {
                None
            }),
    {
        proof {
            use_type_invariant(self);
        }
        if col < W && row < H {
            assert(self.pixels.len() == self.pixels@.len());
            assert(0 <= row * W && row * W + col < W * H) by (nonlinear_arith)
                requires
                    0 <= col < W,
                    0 <= row < H,
            ;
            Some(self.pixels[row * W + col])
        } else {
            None
        }
    }

    /// Sets every pixel to the background colour.
    pub fn clear(&mut self)
        ensures
            final(self)@ == blank(W as int, H as int),
    {
        proof {
            use_type_invariant(&*self);
        }
        clear(&mut self.pixels);
    }

    /// Draws `samples` over the whole canvas, or refuses them and leaves
    /// the canvas as it was. Samples are refused where there are fewer than
    /// two of them, or the canvas is less than two columns wide.
    pub fn render(&mut self, samples: &Vec<i32>) -> (result: Result<(), VisualizerError>)
        ensures
            final(self)@ == (if samples@.len() >= 2 && W >= 2 {
                rendered(samples@, W as int, H as int)
            } else {
                old(self)@
            }),
            result == (if samples@.len() >= 2 && W >= 2 {
                Ok::<(), VisualizerError>(())
            } else {
                Err::<(), VisualizerError>(VisualizerError::InvalidInput)
            }),
    {
        proof {
            use_type_invariant(&*self);
            lemma_rendered_is_canvas(samples@, W as int, H as int);
        }
        draw_waveform(samples, &mut self.pixels, W, H)
    }
}

impl<const W: usize, const H: usize> Clone for Canvas<W, H> {
    /// A canvas of its own with the same pixels.
    fn clone(&self) -> (copy: Self)
        ensures
            copy@ == self@,
    {
        proof {
            use_type_invariant(self);
        }
        let pixels: Vec<u32> = self.pixels.clone();
        assert(pixels@ =~= self.pixels@);
        Canvas { pixels }
    }
}

} // verus!
