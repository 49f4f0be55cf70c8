use vstd::prelude::*;
use crate::pixels::{Rgb, RgbFrame, frame_len, pixel_offset};
use crate::ascii_art::cell_index;

verus! {

/// The colour a destination cell receives: the source pixel its sample point
/// falls on, or the background when the point lies outside the source (or
/// before its left or top edge, which the caller reports as `None`).
pub open spec fn sampled_color(
    source: RgbFrame,
    point: Option<(u32, u32)>,
    background: Rgb,
) -> Rgb {
    match point {
        Some((sx, sy)) => if sx < source.spec_width() && sy < source.spec_height() {
            source.pixel(sx as nat, sy as nat)
        } else {
            background
        },
        None => background,
    }
}

/// Fills a `target_width x target_height` image cell by cell from `source`.
/// `points` holds, row by row, the source position that each destination cell
/// maps to (`None` when that position has a negative coordinate).
pub fn sample_with_background(
    source: &RgbFrame,
    points: &[Option<(u32, u32)>],
    target_width: u32,
    target_height: u32,
    background: Rgb,
) -> (out: RgbFrame)
    requires
        points@.len() == target_width * target_height,
        frame_len(target_width as nat, target_height as nat) <= usize::MAX,
    ensures
        out.spec_width() == target_width,
        out.spec_height() == target_height,
        forall|x: nat, y: nat|
            x < target_width && y < target_height ==> #[trigger] out.pixel(x, y) == sampled_color(
                *source,
                points@[cell_index(target_width as nat, x, y)],
                background,
            ),
{
    let count = points.len();
    let mut data: Vec<u8> = Vec::new();
    let mut i: usize = 0;
    while i < count
        invariant
            i <= count,
            count == points@.len(),
            count * 3 <= usize::MAX,
            data@.len() == 3 * i,
            forall|k: int|
                0 <= k < i ==> {
                    let c = #[trigger] sampled_color(*source, points@[k], background);
                    data@[3 * k] == c.r && data@[3 * k + 1] == c.g && data@[3 * k + 2] == c.b
                },
        decreases count - i,
    {
        let pixel = match points[i] {
            Some((sx, sy)) => {
                if sx < source.width() && sy < source.height() {
                    source.get_pixel(sx, sy)
                } else {
                    background
                }
            },
            None => background,
        };
        data.push(pixel.r);
        data.push(pixel.g);
        data.push(pixel.b);
        proof {
            assert forall|k: int| 0 <= k < i + 1 implies {
                let c = #[trigger] sampled_color(*source, points@[k], background);
                data@[3 * k] == c.r && data@[3 * k + 1] == c.g && data@[3 * k + 2] == c.b
            } by {
                if k < i {
                    let c = sampled_color(*source, points@[k], background);
                    assert(data@[3 * k] == c.r);
                }
            }
        }
        i = i + 1;
    }
    proof {
        assert(frame_len(target_width as nat, target_height as nat) == 3 * count) by (
        nonlinear_arith)
            requires
                count == target_width * target_height,
        ;
    }
    let frame = RgbFrame::from_raw(target_width, target_height, data).unwrap();
    proof {
        assert forall|x: nat, y: nat|
            x < target_width && y < target_height implies #[trigger] frame.pixel(x, y)
            == sampled_color(*source, points@[cell_index(target_width as nat, x, y)], background)
        by {
            crate::ascii_art::lemma_cell_index_bounds(target_width as nat, target_height as nat, x, y);
            let k = cell_index(target_width as nat, x, y);
            assert(pixel_offset(target_width as nat, x, y) == 3 * k);
            let c = sampled_color(*source, points@[k], background);
            assert(data@[3 * k] == c.r);
        }
    }
    frame
}

/// A sample point is (column, row): a point inside the source takes the
/// source pixel in column `sx` and row `sy`; a point past the right or bottom
/// edge, or a missing point, takes the background.
pub proof fn lemma_sample_point_is_column_row(
    source: RgbFrame,
    sx: u32,
    sy: u32,
    background: Rgb,
)
    ensures
        sx < source.spec_width() && sy < source.spec_height() ==> sampled_color(
            source,
            Some((sx, sy)),
            background,
        ) == source.pixel(sx as nat, sy as nat),
        sx >= source.spec_width() || sy >= source.spec_height() ==> sampled_color(
            source,
            Some((sx, sy)),
            background,
        ) == background,
        sampled_color(source, None, background) == background,
{
}

/// Side of the square canvas a rotation is sampled from: twice the larger
/// target side, capped at 400 pixels.
pub open spec fn spec_rotation_canvas_dim(target_width: u32, target_height: u32) -> u32 {
    let m = if target_width >= target_height {
        target_width
    } else {
        target_height
    };
    if m * 2 < 400 {
        (m * 2) as u32
    } else {
        400
    }
}

/// Side of the square canvas the rotation animation samples from.
pub fn rotation_canvas_dim(target_width: u32, target_height: u32) -> (r: u32)
    requires
        target_width * 2 <= u32::MAX,
        target_height * 2 <= u32::MAX,
    ensures
        r == spec_rotation_canvas_dim(target_width, target_height),
{
    let m = if target_width >= target_height {
        target_width
    } else {
        target_height
    };
    let doubled = m * 2;
    if doubled < 400 {
        doubled
    } else {
        400
    }
}

/// The canvas is never larger than 400 pixels, and for grids of at most
/// 200 cells a side it is exactly twice the larger side.
pub proof fn lemma_canvas_bounds(target_width: u32, target_height: u32)
    ensures
        spec_rotation_canvas_dim(target_width, target_height) <= 400,
        target_width >= 1 ==> spec_rotation_canvas_dim(target_width, target_height) >= 2,
        target_width <= 200 && target_height <= 200 ==> spec_rotation_canvas_dim(
            target_width,
            target_height,
        ) == 2 * (if target_width >= target_height {
            target_width
        } else {
            target_height
        }),
{
}

} // verus!
