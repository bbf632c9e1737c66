//! The halo that keeps text legible on any background.
//!
//! The presence plane of the canvas is grown by a square neighbourhood whose
//! radius follows the size of the image, and the grown mask is smoothed with
//! a three by three mean. The result is the opacity of the dark outline.

use vstd::prelude::*;
use vstd::arithmetic::div_mod::lemma_fundamental_div_mod_converse;
use crate::canvas::AlphaCanvas;
use crate::canvas::lemma_pixel_index;

verus! {

/// The halo radius grows by one pixel for this much of width plus height.
pub const HALO_SCALE: u32 = 300;

/// Value of a mask pixel that is switched on.
pub const MASK_ON: u8 = 255;

/// The largest radius by which a plane is grown in one step. A larger
/// radius takes several steps.
pub const GROW_STEP: u32 = 254;

/// The value that a plane stored row by row holds at `(px, py)`.
pub open spec fn plane_at(plane: Seq<u8>, w: int, px: int, py: int) -> u8 {
    plane[py * w + px]
}

/// The halo radius for an image: one pixel for every `HALO_SCALE` pixels of
/// width plus height, rounded down, and never less than one.
pub open spec fn halo_radius_of(width: u32, height: u32) -> int {
    if (width + height) / (HALO_SCALE as int) < 1 {
        1
    } else {
        (width + height) / (HALO_SCALE as int)
    }
}

/// Whether some non-zero pixel of the plane lies within `k` steps of
/// `(px, py)`, a diagonal step counting as one.
pub open spec fn near_foreground(plane: Seq<u8>, w: int, h: int, k: int, px: int, py: int) -> bool {
    exists|qx: int, qy: int|
        0 <= qx < w && 0 <= qy < h && px - k <= qx <= px + k && py - k <= qy <= py + k
            && #[trigger] plane_at(plane, w, qx, qy) > 0
}

/// Dilation of a plane by a square of radius `k`, at one pixel: the pixel is
/// switched on when a non-zero pixel is within reach, and off otherwise.
pub open spec fn dilated_at(plane: Seq<u8>, w: int, h: int, k: int, px: int, py: int) -> u8 {
    if near_foreground(plane, w, h, k, px, py) {
        MASK_ON
    } else {
        0
    }
}

/// Dilation of a whole plane by a square of radius `k`.
pub open spec fn dilated(plane: Seq<u8>, w: int, h: int, k: int) -> Seq<u8> {
    Seq::new(plane.len(), |i: int| dilated_at(plane, w, h, k, i % w, i / w))
}

/// The nearest index inside `0..n`.
pub open spec fn clamped(i: int, n: int) -> int {
    if i < 0 {
        0
    } else if i >= n {
        n - 1
    } else {
        i
    }
}

/// Mean of a pixel and its left and right neighbours, rounded down. At the
/// border the border pixel stands in for the missing neighbour.
pub open spec fn row_mean(plane: Seq<u8>, w: int, px: int, py: int) -> int {
    (plane_at(plane, w, clamped(px - 1, w), py) + plane_at(plane, w, px, py) + plane_at(
        plane,
        w,
        clamped(px + 1, w),
        py,
    )) / 3
}

/// Mean over the three by three neighbourhood of a pixel: first along the
/// rows, then along the columns, each mean rounded down.
pub open spec fn box_mean(plane: Seq<u8>, w: int, h: int, px: int, py: int) -> int {
    (row_mean(plane, w, px, clamped(py - 1, h)) + row_mean(plane, w, px, py) + row_mean(
        plane,
        w,
        px,
        clamped(py + 1, h),
    )) / 3
}

/// A whole plane smoothed by the three by three mean.
pub open spec fn smoothed(plane: Seq<u8>, w: int, h: int) -> Seq<u8> {
    Seq::new(plane.len(), |i: int| box_mean(plane, w, h, i % w, i / w) as u8)
}

/// The halo opacity that belongs to a presence plane.
pub open spec fn halo_of(presence: Seq<u8>, width: u32, height: u32) -> Seq<u8> {
    smoothed(
        dilated(presence, width as int, height as int, halo_radius_of(width, height)),
        width as int,
        height as int,
    )
}

/// The opacity of the outline, one value for each pixel of the image.
#[derive(Clone, Debug)]
pub struct HaloLayer {
    pub width: u32,
    pub height: u32,
    pub opacity: Vec<u8>,
}

impl HaloLayer {
    /// The layer has one opacity value for each pixel.
    pub open spec fn wf(&self) -> bool {
        &&& self.width * self.height <= usize::MAX
        &&& self.opacity@.len() == self.width * self.height
    }
}

/// Whether a plane of this size can be smoothed: the sums along a row or a
/// column, borders included, have to fit into 32 bits.
pub open spec fn size_in_range(width: u32, height: u32) -> bool {
    (width + 2) * 255 <= u32::MAX && (height + 2) * 255 <= u32::MAX
}

/// Tells whether a plane of this size can be smoothed.
pub fn size_fits(width: u32, height: u32) -> (ok: bool)
    ensures
        ok == size_in_range(width, height),
{
    (width as u64 + 2) * 255 <= 0xffff_ffff && (height as u64 + 2) * 255 <= 0xffff_ffff
}

/// Computes the halo radius for an image.
pub fn halo_radius(width: u32, height: u32) -> (radius: u32)
    ensures
        radius == halo_radius_of(width, height),
        radius >= 1,
{
    let scaled: u64 = (width as u64 + height as u64) / (HALO_SCALE as u64);
    if scaled < 1 {
        1
    } else {
        scaled as u32
    }
}

/// Calls `imageproc::morphology::dilate_mut` with the norm `LInf` on a plane
/// of `width` by `height` pixels. That function replaces every pixel by its
/// distance to the nearest non-zero pixel, counted in king's moves, and
/// switches on the pixels whose distance is at most `radius`. It counts
/// distances only up to the smaller of `width + height` and 255; the
/// contract speaks of radii below that, for which the count is exact.
#[verifier::external_body]
fn dilate_square(plane: Vec<u8>, width: u32, height: u32, radius: u8) -> (grown: Vec<u8>)
    requires
        plane@.len() == width * height,
        width + height <= u32::MAX,
        radius < 255,
        radius < width + height,
    ensures
        grown@ == dilated(plane@, width as int, height as int, radius as int),
{
    let mut image = image::GrayImage::from_raw(width, height, plane).unwrap();
    imageproc::morphology::dilate_mut(
        &mut image,
        imageproc::distance_transform::Norm::LInf,
        radius,
    );
    image.into_raw()
}

/// Calls `imageproc::filter::box_filter` with radius one on both axes. The
/// contract restates what that function does: a running mean of three along
/// each row, then along each column of the result, the border pixels
/// repeated outward and every division rounded down.
#[verifier::external_body]
fn box_smooth(plane: Vec<u8>, width: u32, height: u32) -> (smooth: Vec<u8>)
    requires
        plane@.len() == width * height,
        (width + 2) * 255 <= u32::MAX,
        (height + 2) * 255 <= u32::MAX,
    ensures
        smooth@ == smoothed(plane@, width as int, height as int),
{
    let image = image::GrayImage::from_raw(width, height, plane).unwrap();
    imageproc::filter::box_filter(&image, 1, 1).into_raw()
}

/// Grows a plane by a square of the given radius, in steps of at most
/// `GROW_STEP`.
fn grow(plane: Vec<u8>, width: u32, height: u32, radius: u32) -> (grown: Vec<u8>)
    requires
        plane@.len() == width * height,
        width + height <= u32::MAX,
        0 < width,
        0 < height,
        1 <= radius < width + height,
    ensures
        grown@ == dilated(plane@, width as int, height as int, radius as int),
{
    let ghost start = plane@;
    let first: u32 = if radius < GROW_STEP {
        radius
    } else {
        GROW_STEP
    };
    let mut grown: Vec<u8> = dilate_square(plane, width, height, first as u8);
    let mut done: u32 = first;
    while done < radius
        invariant
            start.len() == width * height,
            width + height <= u32::MAX,
            0 < width,
            0 < height,
            1 <= done <= radius < width + height,
            grown@ == dilated(start, width as int, height as int, done as int),
        decreases radius - done,
    {
        let step: u32 = if radius - done < GROW_STEP {
            radius - done
        } else {
            GROW_STEP
        };
        grown = dilate_square(grown, width, height, step as u8);
        proof {
            lemma_dilation_composes(
                start,
                width as int,
                height as int,
                done as int,
                step as int,
            );
        }
        done = done + step;
    }
    grown
}

/// Builds the halo of a canvas: its presence plane, grown by the halo radius
/// and smoothed. The coverage plane plays no part.
pub fn build_halo(canvas: &AlphaCanvas) -> (halo: HaloLayer)
    requires
        canvas.wf(),
        size_in_range(canvas.width, canvas.height),
    ensures
        halo.wf(),
        halo.width == canvas.width,
        halo.height == canvas.height,
        halo.opacity@ == halo_of(canvas.presence@, canvas.width, canvas.height),
{
    let plane: Vec<u8> = canvas.presence.clone();
    assert(plane@ =~= canvas.presence@);
    if canvas.width == 0 || canvas.height == 0 {
        proof {
            assert(canvas.width * canvas.height == 0) by (nonlinear_arith)
                requires
                    canvas.width == 0 || canvas.height == 0,
            ;
            assert(plane@ =~= halo_of(canvas.presence@, canvas.width, canvas.height));
        }
        return HaloLayer { width: canvas.width, height: canvas.height, opacity: plane };
    }
    let radius: u32 = halo_radius(canvas.width, canvas.height);
    let grown: Vec<u8> = grow(plane, canvas.width, canvas.height, radius);
    let smooth: Vec<u8> = box_smooth(grown, canvas.width, canvas.height);
    HaloLayer { width: canvas.width, height: canvas.height, opacity: smooth }
}

/// The pixel `(px, py)` of a `w` by `h` plane is stored at `py * w + px`,
/// and from that place the pixel is found again.
pub proof fn lemma_place_of_pixel(px: int, py: int, w: int, h: int)
    requires
        0 <= px < w,
        0 <= py < h,
    ensures
        0 <= py * w + px < w * h,
        (py * w + px) % w == px,
        (py * w + px) / w == py,
{
    lemma_pixel_index(px, py, w, h);
    lemma_fundamental_div_mod_converse(py * w + px, w, py, px);
}

/// Every place in the storage of a `w` by `h` plane belongs to one pixel.
pub proof fn lemma_pixel_of_place(i: int, w: int, h: int)
    requires
        0 <= i < w * h,
        0 < w,
    ensures
        0 <= i % w < w,
        0 <= i / w < h,
        (i / w) * w + i % w == i,
{
    vstd::arithmetic::div_mod::lemma_fundamental_div_mod(i, w);
    vstd::arithmetic::div_mod::lemma_mod_bound(i, w);
    vstd::arithmetic::div_mod::lemma_div_pos_is_pos(i, w);
    assert((i / w) * w == w * (i / w)) by (nonlinear_arith);
    if i / w >= h {
        assert((i / w) * w >= h * w) by (nonlinear_arith)
            requires
                i / w >= h,
                0 < w,
        ;
        assert(h * w == w * h) by (nonlinear_arith);
    }
}

/// A larger radius reaches at least as far: what a dilation by `r1` switches
/// on, a dilation by any `r2 > r1` switches on as well.
pub proof fn lemma_dilation_monotone(plane: Seq<u8>, w: int, h: int, r1: int, r2: int)
    requires
        r1 < r2,
    ensures
        forall|i: int|
            0 <= i < plane.len() && dilated(plane, w, h, r1)[i] == MASK_ON ==> dilated(
                plane,
                w,
                h,
                r2,
            )[i] == MASK_ON,
        forall|px: int, py: int|
            dilated_at(plane, w, h, r1, px, py) <= dilated_at(plane, w, h, r2, px, py),
{
    assert forall|px: int, py: int| dilated_at(plane, w, h, r1, px, py) <= dilated_at(
        plane,
        w,
        h,
        r2,
        px,
        py,
    ) by {
        if near_foreground(plane, w, h, r1, px, py) {
            let (qx, qy) = choose|qx: int, qy: int|
                0 <= qx < w && 0 <= qy < h && px - r1 <= qx <= px + r1 && py - r1 <= qy <= py
                    + r1 && #[trigger] plane_at(plane, w, qx, qy) > 0;
            assert(0 <= qx < w && 0 <= qy < h && px - r2 <= qx <= px + r2 && py - r2 <= qy <= py
                + r2 && plane_at(plane, w, qx, qy) > 0);
        }
    }
    assert forall|i: int|
        0 <= i < plane.len() && dilated(plane, w, h, r1)[i] == MASK_ON implies dilated(
        plane,
        w,
        h,
        r2,
    )[i] == MASK_ON by {
        assert(dilated_at(plane, w, h, r1, i % w, i / w) <= dilated_at(
            plane,
            w,
            h,
            r2,
            i % w,
            i / w,
        ));
    }
}

/// Smoothing keeps the order of two planes: where one plane is nowhere
/// above the other, neither is its three by three mean.
pub proof fn lemma_smoothing_monotone(lower: Seq<u8>, upper: Seq<u8>, w: int, h: int, i: int)
    requires
        0 < w,
        0 < h,
        lower.len() == w * h,
        upper.len() == w * h,
        forall|j: int| 0 <= j < w * h ==> lower[j] <= upper[j],
        0 <= i < w * h,
    ensures
        smoothed(lower, w, h)[i] <= smoothed(upper, w, h)[i],
{
    lemma_pixel_of_place(i, w, h);
    let px = i % w;
    let py = i / w;
    assert forall|qx: int, qy: int| 0 <= qx < w && 0 <= qy < h implies #[trigger] plane_at(
        lower,
        w,
        qx,
        qy,
    ) <= plane_at(upper, w, qx, qy) by {
        lemma_place_of_pixel(qx, qy, w, h);
    }
    assert forall|qy: int| 0 <= qy < h implies #[trigger] row_mean(lower, w, px, qy) <= row_mean(
        upper,
        w,
        px,
        qy,
    ) by {
        assert(plane_at(lower, w, clamped(px - 1, w), qy) <= plane_at(
            upper,
            w,
            clamped(px - 1, w),
            qy,
        ));
        assert(plane_at(lower, w, px, qy) <= plane_at(upper, w, px, qy));
        assert(plane_at(lower, w, clamped(px + 1, w), qy) <= plane_at(
            upper,
            w,
            clamped(px + 1, w),
            qy,
        ));
    }
    assert(row_mean(lower, w, px, clamped(py - 1, h)) <= row_mean(
        upper,
        w,
        px,
        clamped(py - 1, h),
    ));
    assert(row_mean(lower, w, px, py) <= row_mean(upper, w, px, py));
    assert(row_mean(lower, w, px, clamped(py + 1, h)) <= row_mean(
        upper,
        w,
        px,
        clamped(py + 1, h),
    ));
    lemma_box_mean_is_byte(lower, w, h, px, py);
    lemma_box_mean_is_byte(upper, w, h, px, py);
}

/// A three by three mean of byte values is a byte value again.
pub proof fn lemma_box_mean_is_byte(plane: Seq<u8>, w: int, h: int, px: int, py: int)
    ensures
        0 <= box_mean(plane, w, h, px, py) <= 255,
{
    assert(0 <= row_mean(plane, w, px, clamped(py - 1, h)) <= 255);
    assert(0 <= row_mean(plane, w, px, py) <= 255);
    assert(0 <= row_mean(plane, w, px, clamped(py + 1, h)) <= 255);
}

/// The halo grows with the radius: with a larger radius the outline is
/// nowhere more transparent than with a smaller one.
pub proof fn lemma_halo_monotone(plane: Seq<u8>, w: int, h: int, r1: int, r2: int, i: int)
    requires
        0 < w,
        0 < h,
        plane.len() == w * h,
        r1 < r2,
        0 <= i < w * h,
    ensures
        smoothed(dilated(plane, w, h, r1), w, h)[i] <= smoothed(dilated(plane, w, h, r2), w, h)[i],
{
    lemma_dilation_monotone(plane, w, h, r1, r2);
    let lower = dilated(plane, w, h, r1);
    let upper = dilated(plane, w, h, r2);
    assert forall|j: int| 0 <= j < w * h implies lower[j] <= upper[j] by {
        assert(dilated_at(plane, w, h, r1, j % w, j / w) <= dilated_at(
            plane,
            w,
            h,
            r2,
            j % w,
            j / w,
        ));
    }
    lemma_smoothing_monotone(lower, upper, w, h, i);
}

/// Under ink the halo is opaque: a pixel whose presence flag is raised has
/// full halo opacity, whatever the radius, as long as it is at least one.
pub proof fn lemma_halo_opaque_under_ink(plane: Seq<u8>, w: int, h: int, k: int, i: int)
    requires
        0 < w,
        0 < h,
        plane.len() == w * h,
        1 <= k,
        0 <= i < w * h,
        plane[i] > 0,
    ensures
        smoothed(dilated(plane, w, h, k), w, h)[i] == MASK_ON,
{
    lemma_pixel_of_place(i, w, h);
    let px = i % w;
    let py = i / w;
    let grown = dilated(plane, w, h, k);
    assert(plane_at(plane, w, px, py) > 0);
    assert forall|qx: int, qy: int|
        0 <= qx < w && 0 <= qy < h && px - 1 <= qx <= px + 1 && py - 1 <= qy <= py
            + 1 implies #[trigger] plane_at(grown, w, qx, qy) == MASK_ON by {
        lemma_place_of_pixel(qx, qy, w, h);
        assert(0 <= px < w && 0 <= py < h && qx - k <= px <= qx + k && qy - k <= py <= qy + k
            && plane_at(plane, w, px, py) > 0);
        assert(near_foreground(plane, w, h, k, qx, qy));
        assert(grown[qy * w + qx] == dilated_at(plane, w, h, k, qx, qy));
    }
    assert forall|qy: int| 0 <= qy < h && py - 1 <= qy <= py + 1 implies #[trigger] row_mean(
        grown,
        w,
        px,
        qy,
    ) == 255 by {
        assert(plane_at(grown, w, clamped(px - 1, w), qy) == MASK_ON);
        assert(plane_at(grown, w, px, qy) == MASK_ON);
        assert(plane_at(grown, w, clamped(px + 1, w), qy) == MASK_ON);
    }
    assert(row_mean(grown, w, px, clamped(py - 1, h)) == 255);
    assert(row_mean(grown, w, px, py) == 255);
    assert(row_mean(grown, w, px, clamped(py + 1, h)) == 255);
}

/// Growing in steps is growing at once: a dilation by `a` followed by a
/// dilation by `b` is the dilation by `a + b`.
pub proof fn lemma_dilation_composes(plane: Seq<u8>, w: int, h: int, a: int, b: int)
    requires
        0 < w,
        0 < h,
        plane.len() == w * h,
        0 <= a,
        0 <= b,
    ensures
        dilated(dilated(plane, w, h, a), w, h, b) == dilated(plane, w, h, a + b),
{
    let once = dilated(plane, w, h, a);
    assert forall|i: int| 0 <= i < w * h implies dilated(once, w, h, b)[i] == dilated(
        plane,
        w,
        h,
        a + b,
    )[i] by {
        lemma_pixel_of_place(i, w, h);
        let px = i % w;
        let py = i / w;
        if near_foreground(once, w, h, b, px, py) {
            let (mx, my) = choose|mx: int, my: int|
                0 <= mx < w && 0 <= my < h && px - b <= mx <= px + b && py - b <= my <= py + b
                    && #[trigger] plane_at(once, w, mx, my) > 0;
            lemma_place_of_pixel(mx, my, w, h);
            assert(once[my * w + mx] == dilated_at(plane, w, h, a, mx, my));
            assert(near_foreground(plane, w, h, a, mx, my));
            let (qx, qy) = choose|qx: int, qy: int|
                0 <= qx < w && 0 <= qy < h && mx - a <= qx <= mx + a && my - a <= qy <= my + a
                    && #[trigger] plane_at(plane, w, qx, qy) > 0;
            assert(0 <= qx < w && 0 <= qy < h && px - (a + b) <= qx <= px + (a + b) && py - (a
                + b) <= qy <= py + (a + b) && plane_at(plane, w, qx, qy) > 0);
            assert(near_foreground(plane, w, h, a + b, px, py));
        }
        if near_foreground(plane, w, h, a + b, px, py) {
            let (qx, qy) = choose|qx: int, qy: int|
                0 <= qx < w && 0 <= qy < h && px - (a + b) <= qx <= px + (a + b) && py - (a + b)
                    <= qy <= py + (a + b) && #[trigger] plane_at(plane, w, qx, qy) > 0;
            let mx = if px < qx - a {
                qx - a
            } else if px > qx + a {
                qx + a
            } else {
                px
            };
            let my = if py < qy - a {
                qy - a
            } else if py > qy + a {
                qy + a
            } else {
                py
            };
            assert(0 <= qx < w && 0 <= qy < h && mx - a <= qx <= mx + a && my - a <= qy <= my + a
                && plane_at(plane, w, qx, qy) > 0);
            assert(near_foreground(plane, w, h, a, mx, my));
            lemma_place_of_pixel(mx, my, w, h);
            assert(once[my * w + mx] == dilated_at(plane, w, h, a, mx, my));
            assert(0 <= mx < w && 0 <= my < h && px - b <= mx <= px + b && py - b <= my <= py + b
                && plane_at(once, w, mx, my) > 0);
            assert(near_foreground(once, w, h, b, px, py));
        }
    }
    assert(dilated(once, w, h, b) =~= dilated(plane, w, h, a + b));
}

/// Away from ink there is no halo: a pixel that has no raised presence flag
/// within the radius and one more step has no halo opacity at all.
pub proof fn lemma_halo_clear_away_from_ink(plane: Seq<u8>, w: int, h: int, k: int, i: int)
    requires
        0 < w,
        0 < h,
        plane.len() == w * h,
        0 <= k,
        0 <= i < w * h,
        !near_foreground(plane, w, h, k + 1, i % w, i / w),
    ensures
        smoothed(dilated(plane, w, h, k), w, h)[i] == 0,
{
    lemma_pixel_of_place(i, w, h);
    let px = i % w;
    let py = i / w;
    let grown = dilated(plane, w, h, k);
    assert forall|qx: int, qy: int|
        0 <= qx < w && 0 <= qy < h && px - 1 <= qx <= px + 1 && py - 1 <= qy <= py
            + 1 implies #[trigger] plane_at(grown, w, qx, qy) == 0 by {
        lemma_place_of_pixel(qx, qy, w, h);
        assert(grown[qy * w + qx] == dilated_at(plane, w, h, k, qx, qy));
        if near_foreground(plane, w, h, k, qx, qy) {
            let (rx, ry) = choose|rx: int, ry: int|
                0 <= rx < w && 0 <= ry < h && qx - k <= rx <= qx + k && qy - k <= ry <= qy + k
                    && #[trigger] plane_at(plane, w, rx, ry) > 0;
            assert(0 <= rx < w && 0 <= ry < h && px - (k + 1) <= rx <= px + (k + 1) && py - (k
                + 1) <= ry <= py + (k + 1) && plane_at(plane, w, rx, ry) > 0);
        }
    }
    assert forall|qy: int| 0 <= qy < h && py - 1 <= qy <= py + 1 implies #[trigger] row_mean(
        grown,
        w,
        px,
        qy,
    ) == 0 by {
        assert(plane_at(grown, w, clamped(px - 1, w), qy) == 0);
        assert(plane_at(grown, w, px, qy) == 0);
        assert(plane_at(grown, w, clamped(px + 1, w), qy) == 0);
    }
    assert(row_mean(grown, w, px, clamped(py - 1, h)) == 0);
    assert(row_mean(grown, w, px, py) == 0);
    assert(row_mean(grown, w, px, clamped(py + 1, h)) == 0);
}

} // verus!
