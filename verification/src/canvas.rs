//! The coverage canvas that glyph bitmaps are painted onto.
//!
//! The canvas has the size of the base image and two planes: how strongly
//! each pixel is covered by ink, and whether any ink touched it at all.
//! Painting keeps the maximum coverage seen at each pixel.

use vstd::prelude::*;

verus! {

/// Value of the presence plane at a pixel that ink has touched.
pub const PRESENT: u8 = 255;

/// A rasterised glyph with the position of its top-left corner on the
/// canvas. The corner may lie left of or above the canvas.
///
/// `coverage` holds `width * height` values, row by row.
#[derive(Clone, Debug)]
pub struct PlacedGlyph {
    pub x: i64,
    pub y: i64,
    pub width: u32,
    pub height: u32,
    pub coverage: Vec<u8>,
}

impl PlacedGlyph {
    /// The bitmap has one coverage value for each of its pixels.
    pub open spec fn wf(&self) -> bool {
        &&& self.width * self.height <= usize::MAX
        &&& self.coverage@.len() == self.width * self.height
    }

    /// Whether the bitmap lies over the canvas pixel `(px, py)`.
    pub open spec fn covers(&self, px: int, py: int) -> bool {
        self.x <= px < self.x + self.width && self.y <= py < self.y + self.height
    }

    /// What the glyph contributes at the canvas pixel `(px, py)`: its bitmap
    /// value there, and nothing where the bitmap does not reach. A glyph
    /// whose bitmap is incomplete contributes nothing anywhere.
    pub open spec fn ink(&self, px: int, py: int) -> u8 {
        if self.wf() && self.covers(px, py) {
            self.coverage@[(py - self.y) * self.width + (px - self.x)]
        } else {
            0
        }
    }

    /// Checks that the bitmap has one value for each of its pixels.
    pub fn is_valid(&self) -> (ok: bool)
        ensures
            ok == self.wf(),
    {
        assert(self.width * self.height <= u64::MAX) by (nonlinear_arith)
            requires
                0 <= self.width <= u32::MAX,
                0 <= self.height <= u32::MAX,
        ;
        let area: u64 = (self.width as u64) * (self.height as u64);
        self.coverage.len() as u64 == area
    }
}

/// Two planes of `width * height` pixels each, stored row by row.
#[derive(Clone, Debug)]
pub struct AlphaCanvas {
    pub width: u32,
    pub height: u32,
    pub coverage: Vec<u8>,
    pub presence: Vec<u8>,
}

/// The larger of two coverage values.
pub open spec fn max_u8(a: u8, b: u8) -> u8 {
    if a >= b {
        a
    } else {
        b
    }
}

impl AlphaCanvas {
    /// Both planes have one value for each pixel.
    pub open spec fn wf(&self) -> bool {
        &&& self.width * self.height <= usize::MAX
        &&& self.coverage@.len() == self.width * self.height
        &&& self.presence@.len() == self.width * self.height
    }

    /// Whether `(px, py)` is a pixel of the canvas.
    pub open spec fn in_bounds(&self, px: int, py: int) -> bool {
        0 <= px < self.width && 0 <= py < self.height
    }

    /// Coverage at a pixel of the canvas.
    pub open spec fn coverage_at(&self, px: int, py: int) -> u8 {
        self.coverage@[py * self.width + px]
    }

    /// Presence flag at a pixel of the canvas.
    pub open spec fn presence_at(&self, px: int, py: int) -> u8 {
        self.presence@[py * self.width + px]
    }

    /// No ink anywhere.
    pub open spec fn is_blank(&self) -> bool {
        &&& forall|i: int| 0 <= i < self.coverage@.len() ==> self.coverage@[i] == 0
        &&& forall|i: int| 0 <= i < self.presence@.len() ==> self.presence@[i] == 0
    }

    /// The canvas `after` is this canvas with all of `glyphs` painted onto it:
    /// at every pixel the coverage is the larger of what was there and the
    /// strongest ink, and the presence flag is raised where any ink is positive.
    pub open spec fn painted_with_all(&self, glyphs: Seq<PlacedGlyph>, after: &AlphaCanvas) -> bool {
        &&& after.width == self.width
        &&& after.height == self.height
        &&& after.wf()
        &&& forall|px: int, py: int|
            self.in_bounds(px, py) ==> #[trigger] after.coverage_at(px, py) == max_u8(
                self.coverage_at(px, py),
                strongest_ink(glyphs, px, py),
            )
        &&& forall|px: int, py: int|
            self.in_bounds(px, py) ==> #[trigger] after.presence_at(px, py) == (
            if strongest_ink(glyphs, px, py) > 0 {
                PRESENT
            } else {
                self.presence_at(px, py)
            })
    }

    /// The canvas `after` is this canvas with `glyph` painted onto it: at
    /// every pixel the coverage is the larger of what was there and the
    /// glyph's ink, and the presence flag is raised where the ink is positive.
    pub open spec fn painted_with(&self, glyph: &PlacedGlyph, after: &AlphaCanvas) -> bool {
        &&& after.width == self.width
        &&& after.height == self.height
        &&& after.wf()
        &&& forall|px: int, py: int|
            self.in_bounds(px, py) ==> #[trigger] after.coverage_at(px, py) == max_u8(
                self.coverage_at(px, py),
                glyph.ink(px, py),
            )
        &&& forall|px: int, py: int|
            self.in_bounds(px, py) ==> #[trigger] after.presence_at(px, py) == (if glyph.ink(
                px,
                py,
            ) > 0 {
                PRESENT
            } else {
                self.presence_at(px, py)
            })
    }
}

/// The strongest ink that any of `glyphs` leaves at a canvas pixel.
pub open spec fn strongest_ink(glyphs: Seq<PlacedGlyph>, px: int, py: int) -> u8
    decreases glyphs.len(),
{
    if glyphs.len() == 0 {
        0
    } else {
        max_u8(strongest_ink(glyphs.drop_last(), px, py), glyphs.last().ink(px, py))
    }
}

/// A pixel inside a `w` by `h` grid has a place in its row-by-row storage.
pub proof fn lemma_pixel_index(px: int, py: int, w: int, h: int)
    requires
        0 <= px < w,
        0 <= py < h,
    ensures
        0 <= py * w,
        0 <= py * w + px < w * h,
{
    assert(py * w + px < w * h) by (nonlinear_arith)
        requires
            0 <= px < w,
            0 <= py < h,
    ;
    assert(0 <= py * w) by (nonlinear_arith)
        requires
            0 <= py,
            0 < w,
    ;
}

/// Two pixels of a grid that share a place in storage are the same pixel.
pub proof fn lemma_pixel_index_unique(px1: int, py1: int, px2: int, py2: int, w: int)
    requires
        0 <= px1 < w,
        0 <= px2 < w,
        py1 * w + px1 == py2 * w + px2,
    ensures
        px1 == px2,
        py1 == py2,
{
    if py1 < py2 {
        assert(py2 * w >= py1 * w + w) by (nonlinear_arith)
            requires
                py1 < py2,
                0 < w,
        ;
    } else if py2 < py1 {
        assert(py1 * w >= py2 * w + w) by (nonlinear_arith)
            requires
                py2 < py1,
                0 < w,
        ;
    }
}

/// The ink of `glyph` at a canvas pixel as far as painting has come: all
/// bitmap rows above `rows_done`, and of that row the pixels left of
/// `cols_done`.
pub open spec fn ink_so_far(
    glyph: &PlacedGlyph,
    px: int,
    py: int,
    rows_done: int,
    cols_done: int,
) -> u8 {
    if py - glyph.y < rows_done || (py - glyph.y == rows_done && px - glyph.x < cols_done) {
        glyph.ink(px, py)
    } else {
        0
    }
}

impl AlphaCanvas {
    /// Creates a canvas without ink.
    pub fn new(width: u32, height: u32) -> (canvas: AlphaCanvas)
        requires
            width * height <= usize::MAX,
        ensures
            canvas.wf(),
            canvas.width == width,
            canvas.height == height,
            canvas.is_blank(),
    {
        assert(width * height == (width as usize) * (height as usize));
        let n: usize = (width as usize) * (height as usize);
        AlphaCanvas { width, height, coverage: vec![0u8; n], presence: vec![0u8; n] }
    }

    /// Reads the coverage at `(px, py)`, or nothing outside the canvas.
    pub fn coverage(&self, px: u32, py: u32) -> (value: Option<u8>)
        requires
            self.wf(),
        ensures
            value == (if self.in_bounds(px as int, py as int) {
                Some(self.coverage_at(px as int, py as int))
            } else {
                None
            }),
    {
        if px < self.width && py < self.height {
            proof {
                lemma_pixel_index(px as int, py as int, self.width as int, self.height as int);
            }
            Some(self.coverage[(py as usize) * (self.width as usize) + (px as usize)])
        } else {
            None
        }
    }

    /// Reads the presence flag at `(px, py)`, or nothing outside the canvas.
    pub fn presence(&self, px: u32, py: u32) -> (value: Option<u8>)
        requires
            self.wf(),
        ensures
            value == (if self.in_bounds(px as int, py as int) {
                Some(self.presence_at(px as int, py as int))
            } else {
                None
            }),
    {
        if px < self.width && py < self.height {
            proof {
                lemma_pixel_index(px as int, py as int, self.width as int, self.height as int);
            }
            Some(self.presence[(py as usize) * (self.width as usize) + (px as usize)])
        } else {
            None
        }
    }

    /// Paints one glyph. Bitmap pixels that fall outside the canvas are left
    /// out; everywhere else the larger coverage stays. A glyph whose bitmap
    /// is incomplete is passed over.
    pub fn paint(&mut self, glyph: &PlacedGlyph)
        requires
            old(self).wf(),
        ensures
            old(self).painted_with(glyph, final(self)),
    {
        if !glyph.is_valid() {
            return ;
        }
        let w: i64 = self.width as i64;
        let h: i64 = self.height as i64;
        if glyph.x >= w || glyph.y >= h {
            return ;
        }
        let right: i64 = glyph.x + glyph.width as i64;
        let bottom: i64 = glyph.y + glyph.height as i64;
        if right <= 0 || bottom <= 0 {
            return ;
        }
        let first_col: u32 = if glyph.x < 0 {
            (-glyph.x) as u32
        } else {
            0
        };
        let first_row: u32 = if glyph.y < 0 {
            (-glyph.y) as u32
        } else {
            0
        };
        let cols: u32 = if right < w {
            glyph.width
        } else {
            (w - glyph.x) as u32
        };
        let rows: u32 = if bottom < h {
            glyph.height
        } else {
            (h - glyph.y) as u32
        };
        let ghost before = *self;
        let mut j: u32 = first_row;
        while j < rows
            invariant
                before.wf(),
                self.wf(),
                glyph.wf(),
                self.width == before.width,
                self.height == before.height,
                -glyph.width < glyph.x < self.width,
                -glyph.height < glyph.y < self.height,
                first_col == vstd::math::max(0, -glyph.x),
                first_row == vstd::math::max(0, -glyph.y),
                cols == vstd::math::min(glyph.width as int, self.width - glyph.x),
                rows == vstd::math::min(glyph.height as int, self.height - glyph.y),
                first_row <= j,
                forall|px: int, py: int|
                    before.in_bounds(px, py) ==> #[trigger] self.coverage_at(px, py) == max_u8(
                        before.coverage_at(px, py),
                        ink_so_far(glyph, px, py, j as int, 0),
                    ),
                forall|px: int, py: int|
                    before.in_bounds(px, py) ==> #[trigger] self.presence_at(px, py) == (
                    if ink_so_far(glyph, px, py, j as int, 0) > 0 {
                        PRESENT
                    } else {
                        before.presence_at(px, py)
                    }),
            decreases rows - j,
        {
            let mut i: u32 = first_col;
            while i < cols
                invariant
                    before.wf(),
                    self.wf(),
                    glyph.wf(),
                    self.width == before.width,
                    self.height == before.height,
                    -glyph.width < glyph.x < self.width,
                    -glyph.height < glyph.y < self.height,
                    first_col == vstd::math::max(0, -glyph.x),
                    first_row == vstd::math::max(0, -glyph.y),
                    cols == vstd::math::min(glyph.width as int, self.width - glyph.x),
                    rows == vstd::math::min(glyph.height as int, self.height - glyph.y),
                    first_row <= j < rows,
                    first_col <= i,
                    forall|px: int, py: int|
                        before.in_bounds(px, py) ==> #[trigger] self.coverage_at(px, py) == max_u8(
                            before.coverage_at(px, py),
                            ink_so_far(glyph, px, py, j as int, i as int),
                        ),
                    forall|px: int, py: int|
                        before.in_bounds(px, py) ==> #[trigger] self.presence_at(px, py) == (
                        if ink_so_far(glyph, px, py, j as int, i as int) > 0 {
                            PRESENT
                        } else {
                            before.presence_at(px, py)
                        }),
                decreases cols - i,
            {
                let tx: u32 = (glyph.x + i as i64) as u32;
                let ty: u32 = (glyph.y + j as i64) as u32;
                proof {
                    lemma_pixel_index(i as int, j as int, glyph.width as int, glyph.height as int);
                    lemma_pixel_index(tx as int, ty as int, self.width as int, self.height as int);
                }
                let src: usize = (j as usize) * (glyph.width as usize) + (i as usize);
                let dst: usize = (ty as usize) * (self.width as usize) + (tx as usize);
                let value: u8 = glyph.coverage[src];
                let ghost stepped = *self;
                if value > self.coverage[dst] {
                    self.coverage[dst] = value;
                }
                if value > 0 {
                    self.presence[dst] = PRESENT;
                }
                proof {
                    assert(glyph.ink(tx as int, ty as int) == value);
                    assert forall|px: int, py: int| before.in_bounds(px, py) implies (
                    #[trigger] self.coverage_at(px, py) == max_u8(
                        before.coverage_at(px, py),
                        ink_so_far(glyph, px, py, j as int, i + 1),
                    )) by {
                        lemma_pixel_index(px, py, self.width as int, self.height as int);
                        if py * self.width + px == dst {
                            lemma_pixel_index_unique(
                                px,
                                py,
                                tx as int,
                                ty as int,
                                self.width as int,
                            );
                        }
                        assert(stepped.coverage_at(px, py) == max_u8(
                            before.coverage_at(px, py),
                            ink_so_far(glyph, px, py, j as int, i as int),
                        ));
                    }
                    assert forall|px: int, py: int| before.in_bounds(px, py) implies (
                    #[trigger] self.presence_at(px, py) == (if ink_so_far(
                        glyph,
                        px,
                        py,
                        j as int,
                        i + 1,
                    ) > 0 {
                        PRESENT
                    } else {
                        before.presence_at(px, py)
                    })) by {
                        lemma_pixel_index(px, py, self.width as int, self.height as int);
                        if py * self.width + px == dst {
                            lemma_pixel_index_unique(
                                px,
                                py,
                                tx as int,
                                ty as int,
                                self.width as int,
                            );
                        }
                        assert(stepped.presence_at(px, py) == (if ink_so_far(
                            glyph,
                            px,
                            py,
                            j as int,
                            i as int,
                        ) > 0 {
                            PRESENT
                        } else {
                            before.presence_at(px, py)
                        }));
                    }
                }
                i += 1;
            }
            j += 1;
        }
    }

    /// Paints the glyphs of a list, one after the other.
    pub fn paint_all(&mut self, glyphs: &Vec<PlacedGlyph>)
        requires
            old(self).wf(),
        ensures
            old(self).painted_with_all(glyphs@, final(self)),
    {
        let ghost before = *self;
        let mut k: usize = 0;
        while k < glyphs.len()
            invariant
                k <= glyphs.len(),
                before.wf(),
                before.painted_with_all(glyphs@.take(k as int), self),
            decreases glyphs.len() - k,
        {
            let ghost stepped = *self;
            self.paint(&glyphs[k]);
            proof {
                let done = glyphs@.take(k as int);
                let next = glyphs@.take(k + 1);
                assert(next.drop_last() =~= done);
                assert(next.last() == glyphs@[k as int]);
                assert forall|px: int, py: int| before.in_bounds(px, py) implies (
                #[trigger] self.coverage_at(px, py) == max_u8(
                    before.coverage_at(px, py),
                    strongest_ink(next, px, py),
                )) by {
                    assert(stepped.coverage_at(px, py) == max_u8(
                        before.coverage_at(px, py),
                        strongest_ink(done, px, py),
                    ));
                }
                assert forall|px: int, py: int| before.in_bounds(px, py) implies (
                #[trigger] self.presence_at(px, py) == (if strongest_ink(next, px, py) > 0 {
                    PRESENT
                } else {
                    before.presence_at(px, py)
                })) by {
                    assert(stepped.presence_at(px, py) == (if strongest_ink(done, px, py) > 0 {
                        PRESENT
                    } else {
                        before.presence_at(px, py)
                    }));
                }
            }
            k += 1;
        }
        proof {
            assert(glyphs@.take(k as int) =~= glyphs@);
        }
    }
}

/// Painting never adds coverage up: where two glyphs overlap, the pixel holds
/// the larger of what was there and of the two inks, so it is at least each
/// of them and, on a blank canvas, exactly the larger ink.
pub proof fn lemma_overlap_keeps_maximum(
    start: &AlphaCanvas,
    first: &PlacedGlyph,
    middle: &AlphaCanvas,
    second: &PlacedGlyph,
    end: &AlphaCanvas,
    px: int,
    py: int,
)
    requires
        start.painted_with(first, middle),
        middle.painted_with(second, end),
        start.in_bounds(px, py),
    ensures
        end.coverage_at(px, py) == max_u8(
            start.coverage_at(px, py),
            max_u8(first.ink(px, py), second.ink(px, py)),
        ),
        end.coverage_at(px, py) >= first.ink(px, py),
        end.coverage_at(px, py) >= second.ink(px, py),
        end.coverage_at(px, py) >= start.coverage_at(px, py),
        start.coverage_at(px, py) == 0 ==> end.coverage_at(px, py) == max_u8(
            first.ink(px, py),
            second.ink(px, py),
        ),
{
    assert(middle.coverage_at(px, py) == max_u8(start.coverage_at(px, py), first.ink(px, py)));
    assert(middle.in_bounds(px, py));
    assert(end.coverage_at(px, py) == max_u8(middle.coverage_at(px, py), second.ink(px, py)));
}

/// The order in which two glyphs are painted does not matter.
pub proof fn lemma_paint_order_irrelevant(
    start: &AlphaCanvas,
    first: &PlacedGlyph,
    second: &PlacedGlyph,
    via_first: &AlphaCanvas,
    via_second: &AlphaCanvas,
    end_a: &AlphaCanvas,
    end_b: &AlphaCanvas,
)
    requires
        start.painted_with(first, via_first),
        via_first.painted_with(second, end_a),
        start.painted_with(second, via_second),
        via_second.painted_with(first, end_b),
    ensures
        forall|px: int, py: int|
            start.in_bounds(px, py) ==> end_a.coverage_at(px, py) == end_b.coverage_at(px, py),
        forall|px: int, py: int|
            start.in_bounds(px, py) ==> end_a.presence_at(px, py) == end_b.presence_at(px, py),
{
    assert forall|px: int, py: int| start.in_bounds(px, py) implies end_a.coverage_at(px, py)
        == end_b.coverage_at(px, py) by {
        lemma_overlap_keeps_maximum(start, first, via_first, second, end_a, px, py);
        lemma_overlap_keeps_maximum(start, second, via_second, first, end_b, px, py);
    }
    assert forall|px: int, py: int| start.in_bounds(px, py) implies end_a.presence_at(px, py)
        == end_b.presence_at(px, py) by {
        assert(via_first.in_bounds(px, py));
        assert(via_second.in_bounds(px, py));
        assert(via_first.presence_at(px, py) == (if first.ink(px, py) > 0 {
            PRESENT
        } else {
            start.presence_at(px, py)
        }));
        assert(via_second.presence_at(px, py) == (if second.ink(px, py) > 0 {
            PRESENT
        } else {
            start.presence_at(px, py)
        }));
    }
}

} // verus!
