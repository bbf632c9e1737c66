//! Rectangles in pixel coordinates and the three fixed caption bands.

use vstd::prelude::*;

verus! {

/// Horizontal margin kept free on both sides of a caption band.
pub const BAND_MARGIN_X: u32 = 20;

/// Vertical gap between a band and the image edge, or its neighbouring band.
pub const BAND_MARGIN_Y: u32 = 10;

/// Height that the three bands give up together with their gaps.
pub const BAND_RESERVE: u32 = 20;

/// A pixel position; `y` grows downward from the top-left origin.
#[derive(Clone, Copy, Debug, PartialEq, Eq, Structural)]
pub struct Point {
    pub x: u32,
    pub y: u32,
}

/// An axis-aligned rectangle, placed by its top-left corner.
#[derive(Clone, Copy, Debug, PartialEq, Eq, Structural)]
pub struct Rectangle {
    pub x: u32,
    pub y: u32,
    pub width: u32,
    pub height: u32,
}

/// Where a block of text is anchored within the height of its rectangle.
#[derive(Clone, Copy, Debug, PartialEq, Eq, Structural)]
pub enum VerticalAlignment {
    Top,
    Middle,
    Bottom,
}

impl Rectangle {
    /// A rectangle is well formed when it has positive extent on both axes.
    pub open spec fn wf(self) -> bool {
        self.width > 0 && self.height > 0
    }

    /// Whether the pixel `(px, py)` lies inside the rectangle.
    pub open spec fn contains(self, px: int, py: int) -> bool {
        self.x <= px < self.x + self.width && self.y <= py < self.y + self.height
    }

    /// The rectangle spanned by two corners, the first one top-left.
    pub open spec fn spanned(c1: Point, c2: Point) -> Rectangle {
        Rectangle { x: c1.x, y: c1.y, width: (c2.x - c1.x) as u32, height: (c2.y - c1.y) as u32 }
    }

    /// Builds the rectangle that reaches from `c1` to `c2`.
    pub fn from_corners(c1: Point, c2: Point) -> (r: Rectangle)
        requires
            c1.x < c2.x,
            c1.y < c2.y,
        ensures
            r == Rectangle::spanned(c1, c2),
            r.wf(),
    {
        Rectangle { x: c1.x, y: c1.y, width: c2.x - c1.x, height: c2.y - c1.y }
    }
}

/// Whether an image of this size leaves room for the three caption bands.
pub open spec fn bands_fit(image_width: u32, image_height: u32) -> bool {
    image_width > 2 * BAND_MARGIN_X && image_height / 3 > BAND_RESERVE
}

/// The height shared by the top, centre and bottom bands.
pub open spec fn band_height(image_height: u32) -> int {
    image_height / 3 - BAND_RESERVE
}

/// The band along the top edge.
pub open spec fn top_band_of(image_width: u32, image_height: u32) -> Rectangle {
    Rectangle {
        x: BAND_MARGIN_X,
        y: BAND_MARGIN_Y,
        width: (image_width - 2 * BAND_MARGIN_X) as u32,
        height: band_height(image_height) as u32,
    }
}

/// The band that follows directly below the top band.
pub open spec fn center_band_of(image_width: u32, image_height: u32) -> Rectangle {
    Rectangle {
        x: BAND_MARGIN_X,
        y: (band_height(image_height) + BAND_MARGIN_Y) as u32,
        width: (image_width - 2 * BAND_MARGIN_X) as u32,
        height: band_height(image_height) as u32,
    }
}

/// The band along the bottom edge.
pub open spec fn bottom_band_of(image_width: u32, image_height: u32) -> Rectangle {
    Rectangle {
        x: BAND_MARGIN_X,
        y: (image_height - band_height(image_height) - BAND_MARGIN_Y) as u32,
        width: (image_width - 2 * BAND_MARGIN_X) as u32,
        height: band_height(image_height) as u32,
    }
}

/// Tells whether the three bands have positive extent in an image of this size.
pub fn can_hold_bands(image_width: u32, image_height: u32) -> (ok: bool)
    ensures
        ok == bands_fit(image_width, image_height),
{
    image_width > 2 * BAND_MARGIN_X && image_height / 3 > BAND_RESERVE
}

/// Computes the height shared by the three bands.
pub fn caption_height(image_height: u32) -> (h: u32)
    requires
        image_height / 3 > BAND_RESERVE,
    ensures
        h == band_height(image_height),
        0 < h < image_height,
{
    image_height / 3 - BAND_RESERVE
}

/// Computes the top band.
pub fn top_band(image_width: u32, image_height: u32) -> (r: Rectangle)
    requires
        bands_fit(image_width, image_height),
    ensures
        r == top_band_of(image_width, image_height),
        r.wf(),
{
    Rectangle {
        x: BAND_MARGIN_X,
        y: BAND_MARGIN_Y,
        width: image_width - 2 * BAND_MARGIN_X,
        height: caption_height(image_height),
    }
}

/// Computes the centre band.
pub fn center_band(image_width: u32, image_height: u32) -> (r: Rectangle)
    requires
        bands_fit(image_width, image_height),
    ensures
        r == center_band_of(image_width, image_height),
        r.wf(),
{
    let h: u32 = caption_height(image_height);
    Rectangle {
        x: BAND_MARGIN_X,
        y: h + BAND_MARGIN_Y,
        width: image_width - 2 * BAND_MARGIN_X,
        height: h,
    }
}

/// Computes the bottom band.
pub fn bottom_band(image_width: u32, image_height: u32) -> (r: Rectangle)
    requires
        bands_fit(image_width, image_height),
    ensures
        r == bottom_band_of(image_width, image_height),
        r.wf(),
{
    let h: u32 = caption_height(image_height);
    Rectangle {
        x: BAND_MARGIN_X,
        y: image_height - h - BAND_MARGIN_Y,
        width: image_width - 2 * BAND_MARGIN_X,
        height: h,
    }
}

/// The bands stay inside the image and follow one another from top to bottom
/// without overlap.
pub proof fn lemma_bands_stacked(image_width: u32, image_height: u32)
    requires
        bands_fit(image_width, image_height),
    ensures
        top_band_of(image_width, image_height).y + top_band_of(image_width, image_height).height
            == center_band_of(image_width, image_height).y,
        center_band_of(image_width, image_height).y + center_band_of(
            image_width,
            image_height,
        ).height <= bottom_band_of(image_width, image_height).y,
        bottom_band_of(image_width, image_height).y + bottom_band_of(
            image_width,
            image_height,
        ).height + BAND_MARGIN_Y == image_height,
        top_band_of(image_width, image_height).x + top_band_of(image_width, image_height).width
            + BAND_MARGIN_X == image_width,
{
}

} // verus!
