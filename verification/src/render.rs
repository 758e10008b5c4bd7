//! Rendering a block of samples as a smoothed waveform.
//!
//! A sample is an `i32` in units of `1 / FULL_SCALE`: `FULL_SCALE` stands
//! for the amplitude 1.0 and `-FULL_SCALE` for -1.0. Amplitudes beyond that
//! range are accepted; what they would draw above or below the canvas is
//! left out.

use vstd::prelude::*;
use crate::raster::{
    blank, col_of, is_canvas, lemma_address_in_canvas, row_of, BACKGROUND, WAVEFORM,
};
use crate::disc::{draw_circle, in_disc, lemma_far_row};
use crate::error::VisualizerError;

verus! {

/// The sample value that stands for the amplitude 1.0: two to the power
/// of 24, so that samples are as fine as single-precision amplitudes are
/// near full scale, and reach up to 128 times full scale.
pub const FULL_SCALE: i32 = 16777216;

/// Number of steps into which the stretch between two neighbouring columns
/// is divided; the points of a stretch are numbered from 0 to `STEPS`.
pub const STEPS: usize = 64;

/// Radius of the disc painted round each point of the curve, in pixels.
pub const STROKE_RADIUS: usize = 1;

/// The sample that column `x` of a canvas `width` wide shows, out of `len`
/// samples spread evenly over the columns: `x * (len - 1) / (width - 1)`,
/// rounded down.
pub open spec fn sample_index(x: int, len: int, width: int) -> int {
    (x * (len - 1)) / (width - 1)
}

/// Column of the centre of point `step` on the stretch that starts in
/// column `x`: `x + step / STEPS`, rounded down.
pub open spec fn point_col(x: int, step: int) -> int {
    x + step / (STEPS as int)
}

/// Row of the centre of point `step` on a stretch that leads from sample
/// `a` to sample `b`, on a canvas `height` high. A sample `s` stands at
/// `y(s) = (s + FULL_SCALE) / (2 * FULL_SCALE) * height`, so that -1.0 is
/// the top edge and 1.0 the bottom edge, and the point at
/// `(1 - t) * y(a) + t * y(b)` with `t = step / STEPS`, rounded down.
pub open spec fn point_row(a: int, b: int, step: int, height: int) -> int {
    (((STEPS - step) * (a + FULL_SCALE) + step * (b + FULL_SCALE)) * height) / (2 * STEPS
        * FULL_SCALE)
}

/// The disc round point `step` of the stretch that starts in column `x`
/// covers the pixel `(col, row)`.
pub open spec fn covers(
    samples: Seq<i32>,
    width: int,
    height: int,
    x: int,
    step: int,
    col: int,
    row: int,
) -> bool {
    in_disc(
        point_col(x, step),
        point_row(
            samples[sample_index(x, samples.len() as int, width)] as int,
            samples[sample_index(x + 1, samples.len() as int, width)] as int,
            step,
            height,
        ),
        STROKE_RADIUS as int,
        col,
        row,
    )
}

/// The pixel `(col, row)` belongs to the waveform: the disc round some point
/// of some stretch covers it. The stretches start in the columns from 0 to
/// `width - 2`, and each has the points from 0 to `STEPS`.
pub open spec fn lit(samples: Seq<i32>, width: int, height: int, col: int, row: int) -> bool {
    exists|x: int, step: int|
        0 <= x < width - 1 && 0 <= step <= STEPS && #[trigger] covers(
            samples,
            width,
            height,
            x,
            step,
            col,
            row,
        )
}

/// The canvas that shows `samples`: `width * height` pixels, row by row,
/// the pixels of the waveform in the waveform colour and all the others in
/// the background colour.
pub open spec fn rendered(samples: Seq<i32>, width: int, height: int) -> Seq<u32> {
    Seq::new(
        (width * height) as nat,
        |idx: int|
            if lit(samples, width, height, col_of(idx, width), row_of(idx, width)) {
                WAVEFORM
            } else {
                BACKGROUND
            },
    )
}

/// What can be rendered: at least two samples, on a canvas at least two
/// columns wide whose length is its width times its height.
pub open spec fn renderable(samples_len: int, canvas_len: int, width: int, height: int) -> bool {
    samples_len >= 2 && width >= 2 && canvas_len == width * height
}

/// The pixel `(col, row)` is covered by a point that comes before point
/// `step0` of the stretch that starts in column `x0`.
spec fn lit_before(
    samples: Seq<i32>,
    width: int,
    height: int,
    x0: int,
    step0: int,
    col: int,
    row: int,
) -> bool {
    exists|x: int, step: int|
        0 <= x < width - 1 && 0 <= step <= STEPS && (x < x0 || (x == x0 && step < step0))
            && #[trigger] covers(samples, width, height, x, step, col, row)
}

/// The canvas once all points before point `step0` of the stretch that
/// starts in column `x0` are drawn on a cleared canvas.
spec fn progress(samples: Seq<i32>, width: int, height: int, x0: int, step0: int) -> Seq<u32> {
    Seq::new(
        (width * height) as nat,
        |idx: int|
            if lit_before(
                samples,
                width,
                height,
                x0,
                step0,
                col_of(idx, width),
                row_of(idx, width),
            ) {
                WAVEFORM
            } else {
                BACKGROUND
            },
    )
}

/// Whatever the samples are, the canvas that shows them has `width * height`
/// pixels, each in one of the two colours: no third colour appears.
pub proof fn lemma_rendered_is_canvas(samples: Seq<i32>, width: int, height: int)
    requires
        0 <= width,
        0 <= height,
    ensures
        is_canvas(rendered(samples, width, height), width, height),
{
    assert(0 <= width * height) by (nonlinear_arith)
        requires
            0 <= width,
            0 <= height,
    ;
}

/// Every pixel in the waveform colour lies on the canvas, in a column below
/// `width` and a row below `height`, and within reach of a point of the
/// curve. This holds of all samples, also of amplitudes far beyond the
/// nominal range.
pub proof fn lemma_waveform_pixels_on_canvas(samples: Seq<i32>, width: int, height: int, idx: int)
    requires
        0 <= width,
        0 <= height,
        0 <= idx < rendered(samples, width, height).len(),
        rendered(samples, width, height)[idx] == WAVEFORM,
    ensures
        0 <= col_of(idx, width) < width,
        0 <= row_of(idx, width) < height,
        lit(samples, width, height, col_of(idx, width), row_of(idx, width)),
{
    assert(0 <= width * height) by (nonlinear_arith)
        requires
            0 <= width,
            0 <= height,
    ;
    lemma_address_in_canvas(idx, width, height);
}

/// The canvas left by a call that draws `samples` over the canvas `before`:
/// the waveform where the input can be rendered, and `before` where not.
pub open spec fn drawn(samples: Seq<i32>, before: Seq<u32>, width: int, height: int) -> Seq<u32> {
    if renderable(samples.len() as int, before.len() as int, width, height) {
        rendered(samples, width, height)
    } else {
        before
    }
}

/// Drawing is deterministic and keeps nothing of the earlier frame: two
/// canvases of the same size end up equal, pixel for pixel, once the same
/// samples are drawn on both, whatever they held before.
pub proof fn lemma_drawing_forgets_earlier_frame(
    samples: Seq<i32>,
    first: Seq<u32>,
    second: Seq<u32>,
    width: int,
    height: int,
)
    requires
        renderable(samples.len() as int, first.len() as int, width, height),
        second.len() == first.len(),
    ensures
        drawn(samples, first, width, height) == drawn(samples, second, width, height),
{
}

/// The canvas after one pass for each of `blocks` in turn, begun on a
/// blank canvas. A pass draws its block where the block can be rendered
/// and leaves the canvas alone where not.
pub open spec fn after_passes(blocks: Seq<Seq<i32>>, width: int, height: int) -> Seq<u32>
    decreases blocks.len(),
{
    if blocks.len() == 0 {
        blank(width, height)
    } else {
        drawn(blocks.last(), after_passes(blocks.drop_last(), width, height), width, height)
    }
}

/// After any series of whole passes the canvas is a whole frame: either
/// still blank, or the picture of one single block of the series, with
/// nothing of any other block mixed into it.
pub proof fn lemma_frame_shows_one_block(blocks: Seq<Seq<i32>>, width: int, height: int)
    requires
        0 <= width,
        0 <= height,
    ensures
        is_canvas(after_passes(blocks, width, height), width, height),
        after_passes(blocks, width, height) == blank(width, height) || exists|i: int|
            0 <= i < blocks.len() && after_passes(blocks, width, height) == rendered(
                #[trigger] blocks[i],
                width,
                height,
            ),
    decreases blocks.len(),
{
    assert(0 <= width * height) by (nonlinear_arith)
        requires
            0 <= width,
            0 <= height,
    ;
    if blocks.len() > 0 {
        let earlier = blocks.drop_last();
        lemma_frame_shows_one_block(earlier, width, height);
        lemma_rendered_is_canvas(blocks.last(), width, height);
        let before = after_passes(earlier, width, height);
        if renderable(blocks.last().len() as int, before.len() as int, width, height) {
            assert(after_passes(blocks, width, height) == rendered(
                blocks[blocks.len() - 1],
                width,
                height,
            ));
        } else if before != blank(width, height) {
            let i = choose|i: int|
                0 <= i < earlier.len() && before == rendered(#[trigger] earlier[i], width, height);
            assert(earlier[i] == blocks[i]);
        }
    }
}

/// The sample that column `x` shows; it is one of the `len` samples.
pub fn column_sample(x: usize, len: usize, width: usize) -> (i: usize)
    requires
        1 <= len,
        2 <= width,
        x <= width - 1,
    ensures
        i == sample_index(x as int, len as int, width as int),
        i < len,
    no_unwind
{
    let last: u128 = (len - 1) as u128;
    let span: u128 = (width - 1) as u128;
    assert(x * last <= span * last && span * last <= 0xFFFF_FFFF_FFFF_FFFF * 0xFFFF_FFFF_FFFF_FFFF)
        by (nonlinear_arith)
        requires
            0 <= x <= span <= 0xFFFF_FFFF_FFFF_FFFF,
            0 <= last <= 0xFFFF_FFFF_FFFF_FFFF,
    ;
    let q: u128 = (x as u128) * last / span;
    assert(q <= last) by (nonlinear_arith)
        requires
            q == (x * last) / (span as int),
            x * last <= span * last,
            0 < span,
            0 <= last,
    ;
    q as usize
}

/// Row of the centre of point `step` between the samples `a` and `b`.
pub fn row_for_point(a: i32, b: i32, step: usize, height: usize) -> (row: i128)
    requires
        step <= STEPS,
    ensures
        row == point_row(a as int, b as int, step as int, height as int),
    no_unwind
{
    let t: i128 = step as i128;
    let ya: i128 = a as i128 + FULL_SCALE as i128;
    let yb: i128 = b as i128 + FULL_SCALE as i128;
    assert(-0x40_0000_0000 <= (64 - t) * ya + t * yb <= 0x40_0000_0000 && -0x40_0000_0000 <= (64
        - t) * ya <= 0x40_0000_0000 && -0x40_0000_0000 <= t * yb <= 0x40_0000_0000)
        by (nonlinear_arith)
        requires
            0 <= t <= 64,
            -0x1_0000_0000 <= ya <= 0x1_0000_0000,
            -0x1_0000_0000 <= yb <= 0x1_0000_0000,
    ;
    let blend: i128 = (64 - t) * ya + t * yb;
    let h: i128 = height as i128;
    assert(-0x80_0000_0000 * 0x1_0000_0000_0000_0000 <= blend * h <= 0x80_0000_0000
        * 0x1_0000_0000_0000_0000) by (nonlinear_arith)
        requires
            -0x80_0000_0000 <= blend <= 0x80_0000_0000,
            0 <= h <= 0x1_0000_0000_0000_0000,
    ;
    let num: i128 = blend * h;
    let den: u128 = 2147483648;
    if num >= 0 {
        ((num as u128) / den) as i128
    } else {
        let up: u128 = ((2147483647 - num) as u128) / den;
        assert(-up == (num as int) / (den as int)) by (nonlinear_arith)
            requires
                up == (2147483647 - num) / (den as int),
                den == 2147483648,
        ;
        -(up as i128)
    }
}

/// Sets every pixel to the background colour.
pub fn clear(buffer: &mut Vec<u32>)
    ensures
        final(buffer)@ == Seq::new(old(buffer)@.len(), |idx: int| BACKGROUND),
    no_unwind
{
    let n: usize = buffer.len();
    let mut i: usize = 0;
    while i < n
        invariant
            i <= n,
            n == buffer@.len(),
            n == old(buffer)@.len(),
            forall|k: int| 0 <= k < i ==> buffer@[k] == BACKGROUND,
        decreases n - i,
    {
        buffer[i] = BACKGROUND;
        i = i + 1;
    }
    assert(buffer@ =~= Seq::new(old(buffer)@.len(), |idx: int| BACKGROUND));
}

/// Draws `audio_data` as a waveform over the whole canvas.
///
/// The canvas is cleared first. Then, for each column but the last, the
/// stretch from that column's sample to the next column's sample is drawn
/// as `STEPS + 1` discs of radius `STROKE_RADIUS`, so that neighbouring
/// stretches overlap and the curve has no gaps. A point that lies above or
/// below the canvas marks only the rows of the canvas that its disc reaches.
///
/// Input that cannot be rendered is refused, and the canvas is then left
/// as it was: a block of fewer than two samples, a canvas less than two
/// columns wide, or a canvas whose length is not `width * height`.
pub fn draw_waveform(
    audio_data: &Vec<i32>,
    buffer: &mut Vec<u32>,
    width: usize,
    height: usize,
) -> (result: Result<(), VisualizerError>)
    ensures
        final(buffer)@ == drawn(audio_data@, old(buffer)@, width as int, height as int),
        result == (if renderable(
            audio_data@.len() as int,
            old(buffer)@.len() as int,
            width as int,
            height as int,
        ) {
            Ok::<(), VisualizerError>(())
        } else {
            Err::<(), VisualizerError>(VisualizerError::InvalidInput)
        }),
        result is Ok ==> is_canvas(final(buffer)@, width as int, height as int),
    no_unwind
{
    let n: usize = audio_data.len();
    let area: usize = buffer.len();
    if n < 2 || width < 2 {
        return Err(VisualizerError::InvalidInput);
    }
    assert(width * height <= 0xFFFF_FFFF_FFFF_FFFF * 0xFFFF_FFFF_FFFF_FFFF) by (nonlinear_arith)
        requires
            0 <= width <= 0xFFFF_FFFF_FFFF_FFFF,
            0 <= height <= 0xFFFF_FFFF_FFFF_FFFF,
    ;
    if (width as u128) * (height as u128) != area as u128 {
        return Err(VisualizerError::InvalidInput);
    }
    clear(buffer);
    let ghost samples = audio_data@;
    let ghost w = width as int;
    let ghost h = height as int;
    proof {
        lemma_rendered_is_canvas(samples, w, h);
    }
    if height == 0 {
        assert(buffer@ =~= rendered(samples, w, h));
        return Ok(());
    }
    assert(h <= isize::MAX) by (nonlinear_arith)
        requires
            2 <= w,
            w * h <= usize::MAX,
            usize::MAX <= 2 * isize::MAX + 1,
            0 <= h,
    ;
    assert(buffer@ =~= progress(samples, w, h, 0, 0));
    let mut x: usize = 0;
    while x < width - 1
        invariant
            2 <= n == samples.len(),
            samples == audio_data@,
            2 <= w == width,
            0 < h == height <= isize::MAX,
            x <= width - 1,
            buffer@ == progress(samples, w, h, x as int, 0),
        decreases width - 1 - x,
    {
        let a: i32 = audio_data[column_sample(x, n, width)];
        let b: i32 = audio_data[column_sample(x + 1, n, width)];
        let mut step: usize = 0;
        while step <= STEPS
            invariant
                2 <= n == samples.len(),
                2 <= w == width,
                0 < h == height <= isize::MAX,
                x < width - 1,
                step <= STEPS + 1,
                0 <= sample_index(x as int, n as int, w) < n,
                0 <= sample_index(x + 1, n as int, w) < n,
                a == samples[sample_index(x as int, n as int, w)],
                b == samples[sample_index(x + 1, n as int, w)],
                buffer@ == progress(samples, w, h, x as int, step as int),
            decreases STEPS + 1 - step,
        {
            let row: i128 = row_for_point(a, b, step, height);
            let col: usize = x + step / STEPS;
            let reach: i128 = STROKE_RADIUS as i128;
            let ghost earlier = buffer@;
            if -reach <= row && row < height as i128 + reach {
                draw_circle(buffer, width, height, col, row as isize, STROKE_RADIUS);
            }
            proof {
                assert forall|idx: int| 0 <= idx < w * h implies buffer@[idx] == progress(
                    samples,
                    w,
                    h,
                    x as int,
                    step + 1,
                )[idx] by {
                    lemma_address_in_canvas(idx, w, h);
                    let c = col_of(idx, w);
                    let r = row_of(idx, w);
                    if !(-reach <= row && row < height + reach) {
                        lemma_far_row(col as int, row as int, STROKE_RADIUS as int, r);
                    }
                    assert(buffer@[idx] == if covers(samples, w, h, x as int, step as int, c, r) {
                        WAVEFORM
                    } else {
                        earlier[idx]
                    });
                    assert(lit_before(samples, w, h, x as int, step + 1, c, r) <==> lit_before(
                        samples,
                        w,
                        h,
                        x as int,
                        step as int,
                        c,
                        r,
                    ) || covers(samples, w, h, x as int, step as int, c, r));
                }
                assert(buffer@ =~= progress(samples, w, h, x as int, step + 1));
            }
            step = step + 1;
        }
        proof {
            assert forall|idx: int| 0 <= idx < w * h implies buffer@[idx] == progress(
                samples,
                w,
                h,
                x + 1,
                0,
            )[idx] by {
                let c = col_of(idx, w);
                let r = row_of(idx, w);
                assert(lit_before(samples, w, h, x as int, STEPS + 1, c, r) <==> lit_before(
                    samples,
                    w,
                    h,
                    x + 1,
                    0,
                    c,
                    r,
                ));
            }
            assert(buffer@ =~= progress(samples, w, h, x + 1, 0));
        }
        x = x + 1;
    }
    proof {
        assert forall|idx: int| 0 <= idx < w * h implies buffer@[idx] == rendered(
            samples,
            w,
            h,
        )[idx] by {
            let c = col_of(idx, w);
            let r = row_of(idx, w);
            assert(lit_before(samples, w, h, w - 1, 0, c, r) <==> lit(samples, w, h, c, r));
        }
        assert(buffer@ =~= rendered(samples, w, h));
    }
    Ok(())
}

} // verus!
