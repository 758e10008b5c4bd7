//! Filled discs on a row-major canvas.

use vstd::prelude::*;
use crate::raster::{col_of, lemma_address_in_canvas, lemma_pixel_address, row_of, WAVEFORM};

verus! {

/// The pixel `(col, row)` lies within `radius` of the centre `(cx, cy)`.
pub open spec fn in_disc(cx: int, cy: int, radius: int, col: int, row: int) -> bool {
    (col - cx) * (col - cx) + (row - cy) * (row - cy) <= radius * radius
}

/// The canvas `before` with the disc round `(cx, cy)` painted over it: the
/// pixels of the disc that lie on the canvas carry the waveform colour, all
/// the others are kept.
pub open spec fn with_disc(before: Seq<u32>, width: int, cx: int, cy: int, radius: int) -> Seq<
    u32,
> {
    Seq::new(
        before.len(),
        |idx: int|
            if in_disc(cx, cy, radius, col_of(idx, width), row_of(idx, width)) {
                WAVEFORM
            } else {
                before[idx]
            },
    )
}

/// Half the height of the chord that a disc of radius `radius` cuts out of
/// a column `dx` away from its centre, rounded down: the largest `h` with
/// `h * h + dx * dx <= radius * radius`.
pub fn half_chord(radius: usize, dx: usize) -> (h: usize)
    requires
        dx <= radius,
    ensures
        h <= radius,
        h * h + dx * dx <= radius * radius,
        radius * radius < (h + 1) * (h + 1) + dx * dx,
    no_unwind
{
    let r: u128 = radius as u128;
    let d: u128 = dx as u128;
    assert(r * r <= 0xFFFF_FFFF_FFFF_FFFF * 0xFFFF_FFFF_FFFF_FFFF && d * d <= r * r)
        by (nonlinear_arith)
        requires
            0 <= d <= r <= 0xFFFF_FFFF_FFFF_FFFF,
    ;
    let rest: u128 = r * r - d * d;
    let mut lo: u128 = 0;
    let mut hi: u128 = r + 1;
    assert(rest < hi * hi) by (nonlinear_arith)
        requires
            rest <= r * r,
            hi == r + 1,
            r >= 0,
    ;
    while hi - lo > 1
        invariant
            lo < hi <= r + 1,
            r <= 0xFFFF_FFFF_FFFF_FFFF,
            lo * lo <= rest < hi * hi,
        decreases hi - lo,
    {
        let mid: u128 = lo + (hi - lo) / 2;
        assert(mid * mid <= 0xFFFF_FFFF_FFFF_FFFF * 0xFFFF_FFFF_FFFF_FFFF) by (nonlinear_arith)
            requires
                0 <= mid <= 0xFFFF_FFFF_FFFF_FFFF,
        ;
        if mid * mid <= rest {
            lo = mid;
        } else {
            hi = mid;
        }
    }
    lo as usize
}

/// In a column `dx` away from the centre, the rows of the disc are those at
/// most `h` away from it, where `h` is the column's half chord.
pub proof fn lemma_chord_rows(cx: int, cy: int, radius: int, col: int, h: int)
    requires
        0 <= h,
        h * h + (col - cx) * (col - cx) <= radius * radius,
        radius * radius < (h + 1) * (h + 1) + (col - cx) * (col - cx),
    ensures
        forall|row: int| #[trigger]
            in_disc(cx, cy, radius, col, row) <==> cy - h <= row <= cy + h,
{
    assert forall|row: int| #[trigger]
        in_disc(cx, cy, radius, col, row) <==> cy - h <= row <= cy + h by {
        let dy = row - cy;
        let dx2 = (col - cx) * (col - cx);
        let r2 = radius * radius;
        assert((-h <= dy <= h) <==> dx2 + dy * dy <= r2) by (nonlinear_arith)
            requires
                0 <= h,
                h * h + dx2 <= r2,
                r2 < (h + 1) * (h + 1) + dx2,
        ;
    }
}

/// A column farther than `radius` from the centre holds no pixel of the disc.
pub proof fn lemma_far_column(cx: int, cy: int, radius: int, col: int)
    requires
        0 <= radius,
        col < cx - radius || col > cx + radius,
    ensures
        forall|row: int| !#[trigger] in_disc(cx, cy, radius, col, row),
{
    assert forall|row: int| !#[trigger] in_disc(cx, cy, radius, col, row) by {
        let dx = col - cx;
        let dy = row - cy;
        assert(dx * dx + dy * dy > radius * radius) by (nonlinear_arith)
            requires
                0 <= radius,
                dx < -radius || dx > radius,
        ;
    }
}

/// A row farther than `radius` from the centre holds no pixel of the disc.
pub proof fn lemma_far_row(cx: int, cy: int, radius: int, row: int)
    requires
        0 <= radius,
        row < cy - radius || row > cy + radius,
    ensures
        forall|col: int| !#[trigger] in_disc(cx, cy, radius, col, row),
{
    assert forall|col: int| !#[trigger] in_disc(cx, cy, radius, col, row) by {
        let dx = col - cx;
        let dy = row - cy;
        assert(dx * dx + dy * dy > radius * radius) by (nonlinear_arith)
            requires
                0 <= radius,
                dy < -radius || dy > radius,
        ;
    }
}

/// The pixel `(col, row)` belongs to the disc and is painted once the
/// columns left of `x` are done and, in column `x`, the rows above `y`.
spec fn painted_before(cx: int, cy: int, radius: int, x: int, y: int, col: int, row: int) -> bool {
    in_disc(cx, cy, radius, col, row) && (col < x || (col == x && row < y))
}

/// The canvas at that stage of the painting.
spec fn stage(before: Seq<u32>, width: int, cx: int, cy: int, radius: int, x: int, y: int) -> Seq<
    u32,
> {
    Seq::new(
        before.len(),
        |idx: int|
            if painted_before(cx, cy, radius, x, y, col_of(idx, width), row_of(idx, width)) {
                WAVEFORM
            } else {
                before[idx]
            },
    )
}

/// Paints the filled disc of radius `radius` round `(center_x, center_y)`
/// in the waveform colour, as far as it lies on the canvas. The centre may
/// lie right of the canvas, above it (a negative row) or below it.
pub fn draw_circle(
    buffer: &mut Vec<u32>,
    buffer_width: usize,
    buffer_height: usize,
    center_x: usize,
    center_y: isize,
    radius: usize,
)
    requires
        old(buffer)@.len() == buffer_width * buffer_height,
    ensures
        final(buffer)@ == with_disc(
            old(buffer)@,
            buffer_width as int,
            center_x as int,
            center_y as int,
            radius as int,
        ),
    no_unwind
{
    let ghost before = buffer@;
    let ghost gw = buffer_width as int;
    let ghost gh = buffer_height as int;
    let ghost gx = center_x as int;
    let ghost gy = center_y as int;
    let ghost gr = radius as int;
    if buffer_width == 0 || buffer_height == 0 {
        assert(gw * gh == 0) by (nonlinear_arith)
            requires
                gw == 0 || gh == 0,
        ;
        assert(buffer@ =~= with_disc(before, gw, gx, gy, gr));
        return ;
    }
    assert(buffer.len() == buffer@.len());
    let w: i128 = buffer_width as i128;
    let h: i128 = buffer_height as i128;
    let cx: i128 = center_x as i128;
    let cy: i128 = center_y as i128;
    let r: i128 = radius as i128;
    let start_x: i128 = if cx - r > 0 { cx - r } else { 0 };
    let end_x: i128 = if cx + r < w - 1 { cx + r } else { w - 1 };
    let mut x: i128 = start_x;
    proof {
        assert forall|idx: int| 0 <= idx < before.len() implies buffer@[idx] == stage(
            before,
            gw,
            gx,
            gy,
            gr,
            x as int,
            0,
        )[idx] by {
            lemma_address_in_canvas(idx, gw, gh);
            if col_of(idx, gw) < x {
                lemma_far_column(gx, gy, gr, col_of(idx, gw));
            }
        }
        assert(buffer@ =~= stage(before, gw, gx, gy, gr, x as int, 0));
    }
    while x <= end_x
        invariant
            gw == w == buffer_width,
            gh == h == buffer_height,
            gx == cx == center_x,
            gy == cy == center_y,
            gr == r == radius,
            0 < w,
            0 < h,
            w * h <= usize::MAX,
            before.len() == w * h,
            start_x == (if cx - r > 0 { cx - r } else { 0 }),
            end_x == (if cx + r < w - 1 { cx + r } else { w - 1 }),
            start_x <= x,
            x <= end_x + 1 || x == start_x,
            buffer@ == stage(before, gw, gx, gy, gr, x as int, 0),
        decreases end_x + 1 - x,
    {
        let dx: usize = (if x >= cx { x - cx } else { cx - x }) as usize;
        let half: i128 = half_chord(radius, dx) as i128;
        let upper: i128 = if cy - half > 0 { cy - half } else { 0 };
        let lower: i128 = if cy + half < h - 1 { cy + half } else { h - 1 };
        proof {
            assert(dx * dx == (x - cx) * (x - cx)) by (nonlinear_arith)
                requires
                    dx == x - cx || dx == cx - x,
            ;
            lemma_chord_rows(gx, gy, gr, x as int, half as int);
            assert forall|idx: int| 0 <= idx < before.len() implies buffer@[idx] == stage(
                before,
                gw,
                gx,
                gy,
                gr,
                x as int,
                upper as int,
            )[idx] by {
                lemma_address_in_canvas(idx, gw, gh);
            }
            assert(buffer@ =~= stage(before, gw, gx, gy, gr, x as int, upper as int));
        }
        let mut y: i128 = upper;
        while y <= lower
            invariant
                gw == w,
                gh == h,
                0 < w,
                0 < h,
                w * h <= usize::MAX,
                before.len() == w * h,
                0 <= x < w,
                upper == (if cy - half > 0 { cy - half } else { 0 }),
                lower == (if cy + half < h - 1 { cy + half } else { h - 1 }),
                upper <= y,
                y <= lower + 1 || y == upper,
                forall|row: int| #[trigger]
                    in_disc(gx, gy, gr, x as int, row) <==> cy - half <= row <= cy + half,
                buffer@ == stage(before, gw, gx, gy, gr, x as int, y as int),
            decreases lower + 1 - y,
        {
            proof {
                lemma_pixel_address(x as int, y as int, gw);
                assert(0 <= y * w && y * w + x < w * h) by (nonlinear_arith)
                    requires
                        0 <= x < w,
                        0 <= y < h,
                ;
            }
            let at: usize = (y * w + x) as usize;
            buffer[at] = WAVEFORM;
            proof {
                assert forall|idx: int| 0 <= idx < before.len() implies buffer@[idx] == stage(
                    before,
                    gw,
                    gx,
                    gy,
                    gr,
                    x as int,
                    y + 1,
                )[idx] by {
                    lemma_address_in_canvas(idx, gw, gh);
                }
                assert(buffer@ =~= stage(before, gw, gx, gy, gr, x as int, y + 1));
            }
            y = y + 1;
        }
        proof {
            assert forall|idx: int| 0 <= idx < before.len() implies buffer@[idx] == stage(
                before,
                gw,
                gx,
                gy,
                gr,
                x + 1,
                0,
            )[idx] by {
                lemma_address_in_canvas(idx, gw, gh);
            }
            assert(buffer@ =~= stage(before, gw, gx, gy, gr, x + 1, 0));
        }
        x = x + 1;
    }
    proof {
        assert forall|idx: int| 0 <= idx < before.len() implies buffer@[idx] == with_disc(
            before,
            gw,
            gx,
            gy,
            gr,
        )[idx] by {
            lemma_address_in_canvas(idx, gw, gh);
            if col_of(idx, gw) >= x {
                lemma_far_column(gx, gy, gr, col_of(idx, gw));
            }
        }
        assert(buffer@ =~= with_disc(before, gw, gx, gy, gr));
    }
}

} // verus!
