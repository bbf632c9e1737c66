//! From a caption request to the encoded image.

use vstd::prelude::*;
use crate::canvas::strongest_ink;
use crate::canvas::AlphaCanvas;
use crate::canvas::PlacedGlyph;
use crate::canvas::PRESENT;
use crate::compositor::composite;
use crate::compositor::encode;
use crate::compositor::layer_of;
use crate::compositor::laid_over;
use crate::compositor::png_encoding;
use crate::compositor::BaseImage;
use crate::error::RenderError;
use crate::fitter::fit;
use crate::fitter::fit_outcome;
use crate::fitter::FittedLayout;
use crate::fitter::LayoutRequest;
use crate::fitter::Measurement;
use crate::geometry::bands_fit;
use crate::geometry::bottom_band;
use crate::geometry::bottom_band_of;
use crate::geometry::can_hold_bands;
use crate::geometry::center_band;
use crate::geometry::center_band_of;
use crate::geometry::top_band;
use crate::geometry::top_band_of;
use crate::geometry::Rectangle;
use crate::geometry::VerticalAlignment;
use crate::mdl::MdlCaption;
use crate::mdl::MdlInsert;
use crate::mdl::MdlInserts;
use crate::mdl::MdlMeme;
use crate::outline::build_halo;
use crate::outline::halo_of;
use crate::outline::halo_radius_of;
use crate::outline::lemma_halo_clear_away_from_ink;
use crate::outline::lemma_place_of_pixel;
use crate::outline::near_foreground;
use crate::outline::plane_at;
use crate::outline::lemma_pixel_of_place;
use crate::outline::size_fits;
use crate::outline::size_in_range;
use crate::repository::FormatRepo;
use crate::repository::MemeFormat;

verus! {

/// One target for a text: where it goes, how it is anchored, what it says.
#[derive(Clone, Copy, Debug)]
pub struct CaptionRegion<'a> {
    pub area: Rectangle,
    pub alignment: VerticalAlignment,
    pub text: &'a str,
}

/// A caption region with its text as a sequence of characters.
pub struct RegionModel {
    pub area: Rectangle,
    pub alignment: VerticalAlignment,
    pub text: Seq<char>,
}

impl<'a> CaptionRegion<'a> {
    /// The region with its text as a sequence of characters.
    pub open spec fn model(self) -> RegionModel {
        RegionModel { area: self.area, alignment: self.alignment, text: self.text@ }
    }
}

/// The models of a list of regions, in the same order.
pub open spec fn models_of(regions: Seq<CaptionRegion>) -> Seq<RegionModel> {
    Seq::new(regions.len(), |i: int| regions[i].model())
}

/// The region of one band, if the band has a text that is not empty.
pub open spec fn band_model(
    text: Option<String>,
    area: Rectangle,
    alignment: VerticalAlignment,
) -> Seq<RegionModel> {
    match text {
        Some(t) => if t@.len() > 0 {
            seq![RegionModel { area, alignment, text: t@ }]
        } else {
            Seq::empty()
        },
        None => Seq::empty(),
    }
}

/// The regions of the bands that have something to say: top, centre,
/// bottom.
pub open spec fn band_models(caption: MdlCaption, width: u32, height: u32) -> Seq<RegionModel> {
    band_model(caption.top_text, top_band_of(width, height), VerticalAlignment::Top) + band_model(
        caption.center_text,
        center_band_of(width, height),
        VerticalAlignment::Middle,
    ) + band_model(caption.bottom_text, bottom_band_of(width, height), VerticalAlignment::Bottom)
}

/// What a request gives the named inserts; nothing where it names none,
/// or where its inserts do not map names to values.
pub open spec fn insert_list(mdl: MdlMeme) -> Seq<MdlInsert> {
    match mdl.inserts {
        Some(MdlInserts::Entries(list)) => list@,
        _ => Seq::empty(),
    }
}

/// What is wrong with one insert of a request, if anything: the format
/// lacks its name, or else what it is given is no text.
pub open spec fn fault_of(insert: MdlInsert, format: MemeFormat) -> Option<RenderError> {
    if format.insert_named(insert.name@) is None {
        Some(RenderError::UnknownInsert(insert.name))
    } else if insert.text is None {
        Some(RenderError::InsertNotText)
    } else {
        None
    }
}

/// The position of the first insert with which something is wrong.
pub open spec fn first_fault(inserts: Seq<MdlInsert>, format: MemeFormat) -> Option<int>
    decreases inserts.len(),
{
    if inserts.len() == 0 {
        None
    } else {
        match first_fault(inserts.drop_last(), format) {
            Some(i) => Some(i),
            None => if fault_of(inserts.last(), format) is Some {
                Some(inserts.len() - 1)
            } else {
                None
            },
        }
    }
}

/// What fails a request before anything is rendered: inserts that do not
/// map names to values, or else the fault of the first insert that has one.
pub open spec fn plan_fault(mdl: MdlMeme, format: MemeFormat) -> Option<RenderError> {
    if mdl.inserts matches Some(MdlInserts::Other) {
        Some(RenderError::InsertsNotObject)
    } else {
        match first_fault(insert_list(mdl), format) {
            Some(i) => fault_of(insert_list(mdl)[i], format),
            None => None,
        }
    }
}

/// Whether an insert of a request takes a text: its text is not empty, and
/// the format gives its name a rectangle of positive extent.
pub open spec fn takes_text(insert: MdlInsert, format: MemeFormat) -> bool {
    &&& insert.text matches Some(t) && t@.len() > 0
    &&& format.insert_named(insert.name@) matches Some(target) && target.spans_area()
}

/// The region of one insert text, in the rectangle that the format gives
/// its name, anchored in the middle.
pub open spec fn insert_model(insert: MdlInsert, format: MemeFormat) -> RegionModel {
    RegionModel {
        area: format.insert_named(insert.name@).unwrap().area(),
        alignment: VerticalAlignment::Middle,
        text: insert.text.unwrap()@,
    }
}

/// The regions of the inserts that take a text, in their order.
pub open spec fn insert_models(inserts: Seq<MdlInsert>, format: MemeFormat) -> Seq<RegionModel>
    decreases inserts.len(),
{
    if inserts.len() == 0 {
        Seq::empty()
    } else {
        insert_models(inserts.drop_last(), format) + (if takes_text(inserts.last(), format) {
            seq![insert_model(inserts.last(), format)]
        } else {
            Seq::empty()
        })
    }
}

/// Whether some insert of a request takes a text.
pub open spec fn has_insert_region(inserts: Seq<MdlInsert>, format: MemeFormat) -> bool {
    exists|k: int| 0 <= k < inserts.len() && takes_text(#[trigger] inserts[k], format)
}

/// The inserts give a region exactly where one of them takes a text.
pub proof fn lemma_insert_models_need_text(inserts: Seq<MdlInsert>, format: MemeFormat)
    ensures
        insert_models(inserts, format).len() > 0 <==> has_insert_region(inserts, format),
    decreases inserts.len(),
{
    if inserts.len() > 0 {
        let front = inserts.drop_last();
        lemma_insert_models_need_text(front, format);
        if has_insert_region(front, format) {
            let k = choose|k: int| 0 <= k < front.len() && takes_text(#[trigger] front[k], format);
            assert(inserts[k] == front[k]);
        }
        if has_insert_region(inserts, format) {
            let k = choose|k: int|
                0 <= k < inserts.len() && takes_text(#[trigger] inserts[k], format);
            if k < front.len() {
                assert(front[k] == inserts[k]);
            }
        }
    }
}

/// All regions of a request: the bands first, then the inserts. A text
/// that is empty has no region, nor has an insert without extent.
pub open spec fn planned_regions(
    mdl: MdlMeme,
    format: MemeFormat,
    width: u32,
    height: u32,
) -> Seq<RegionModel> {
    band_models(mdl.caption, width, height) + insert_models(insert_list(mdl), format)
}

/// Whether a request can be planned for an image of this size: a request
/// with a band text that is not empty needs an image that has room for the
/// bands.
pub open spec fn plannable(mdl: MdlMeme, width: u32, height: u32) -> bool {
    !mdl.caption.is_blank() ==> bands_fit(width, height)
}

/// Where a text of a request goes: one of the three bands, or an insert of
/// the format, by its name.
#[derive(Clone, Copy, Debug)]
pub enum CaptionPosition<'a> {
    Top,
    Center,
    Bottom,
    Insert(&'a String),
}

impl<'a> CaptionPosition<'a> {
    /// Whether the position can be found in a format: a band always, an
    /// insert where the format has one of that name.
    pub open spec fn known_in(self, format: MemeFormat) -> bool {
        self matches CaptionPosition::Insert(name) ==> format.insert_named(name@) is Some
    }

    /// The rectangle of the position in an image of the given size. An
    /// insert whose corners span no rectangle has none.
    pub open spec fn region_in(self, format: MemeFormat, width: u32, height: u32) -> Option<
        Rectangle,
    > {
        match self {
            CaptionPosition::Top => Some(top_band_of(width, height)),
            CaptionPosition::Center => Some(center_band_of(width, height)),
            CaptionPosition::Bottom => Some(bottom_band_of(width, height)),
            CaptionPosition::Insert(name) => match format.insert_named(name@) {
                Some(target) => if target.spans_area() {
                    Some(target.area())
                } else {
                    None
                },
                None => None,
            },
        }
    }

    /// How a text at the position is anchored: the top band at the top,
    /// the bottom band at the bottom, everything else in the middle.
    pub open spec fn anchor(self) -> VerticalAlignment {
        match self {
            CaptionPosition::Top => VerticalAlignment::Top,
            CaptionPosition::Bottom => VerticalAlignment::Bottom,
            _ => VerticalAlignment::Middle,
        }
    }

    /// Finds the rectangle and the anchor of the position. An insert that
    /// the format lacks is reported by its name; one whose corners span no
    /// rectangle is found, but has no room for a text.
    pub fn resolve(self, format: &MemeFormat, width: u32, height: u32) -> (placed: Result<
        Option<(Rectangle, VerticalAlignment)>,
        RenderError,
    >)
        requires
            !(self is Insert) ==> bands_fit(width, height),
        ensures
            match placed {
                Ok(Some(found)) => self.known_in(*format) && self.region_in(
                    *format,
                    width,
                    height,
                ) == Some(found.0) && found.1 == self.anchor() && found.0.wf(),
                Ok(None) => self.known_in(*format) && self.region_in(*format, width, height)
                    is None,
                Err(e) => self matches CaptionPosition::Insert(name) && (format.insert_named(
                    name@,
                ) is None && e == RenderError::UnknownInsert(*name)),
            },
    {
        match self {
            CaptionPosition::Top => Ok(Some((top_band(width, height), VerticalAlignment::Top))),
            CaptionPosition::Center => Ok(
                Some((center_band(width, height), VerticalAlignment::Middle)),
            ),
            CaptionPosition::Bottom => Ok(
                Some((bottom_band(width, height), VerticalAlignment::Bottom)),
            ),
            CaptionPosition::Insert(name) => match format.find_insert(name) {
                Some(target) => {
                    if target.has_area() {
                        Ok(Some((target.rectangle(), VerticalAlignment::Middle)))
                    } else {
                        Ok(None)
                    }
                },
                None => Err(RenderError::UnknownInsert(name.clone())),
            },
        }
    }
}

/// The first fault of the beginning of a list is the first fault of the
/// list.
pub proof fn lemma_first_fault_of_prefix(inserts: Seq<MdlInsert>, format: MemeFormat, n: int)
    requires
        0 <= n <= inserts.len(),
        first_fault(inserts.take(n), format) is Some,
    ensures
        first_fault(inserts, format) == first_fault(inserts.take(n), format),
    decreases inserts.len(),
{
    if n < inserts.len() {
        assert(inserts.drop_last().take(n) =~= inserts.take(n));
        lemma_first_fault_of_prefix(inserts.drop_last(), format, n);
    } else {
        assert(inserts.take(n) =~= inserts);
    }
}

/// Resolves a request against a format: one region for each band text and
/// each insert that takes a text. Inserts that do not map names to values
/// fail the whole request, and so does the first insert whose name the
/// format lacks or whose value is no text.
pub fn plan_regions<'a>(mdl: &'a MdlMeme, format: &MemeFormat, width: u32, height: u32) -> (planned:
    Result<Vec<CaptionRegion<'a>>, RenderError>)
    requires
        plannable(*mdl, width, height),
    ensures
        match planned {
            Ok(regions) => plan_fault(*mdl, *format) is None && models_of(regions@)
                == planned_regions(*mdl, *format, width, height),
            Err(e) => plan_fault(*mdl, *format) == Some(e),
        },
{
    let mut regions: Vec<CaptionRegion<'a>> = Vec::new();
    if let Some(text) = &mdl.caption.top_text {
        if !text.as_str().is_empty() {
            if let Ok(Some((area, alignment))) = CaptionPosition::Top.resolve(
                format,
                width,
                height,
            ) {
                regions.push(CaptionRegion { area, alignment, text: text.as_str() });
            }
        }
    }
    if let Some(text) = &mdl.caption.center_text {
        if !text.as_str().is_empty() {
            if let Ok(Some((area, alignment))) = CaptionPosition::Center.resolve(
                format,
                width,
                height,
            ) {
                regions.push(CaptionRegion { area, alignment, text: text.as_str() });
            }
        }
    }
    if let Some(text) = &mdl.caption.bottom_text {
        if !text.as_str().is_empty() {
            if let Ok(Some((area, alignment))) = CaptionPosition::Bottom.resolve(
                format,
                width,
                height,
            ) {
                regions.push(CaptionRegion { area, alignment, text: text.as_str() });
            }
        }
    }
    assert(models_of(regions@) =~= band_models(mdl.caption, width, height));
    let inserts: &Vec<MdlInsert> = match &mdl.inserts {
        None => {
            assert(insert_models(insert_list(*mdl), *format) =~= Seq::<RegionModel>::empty());
            return Ok(regions);
        },
        Some(MdlInserts::Other) => {
            return Err(RenderError::InsertsNotObject);
        },
        Some(MdlInserts::Entries(inserts)) => inserts,
    };
    let ghost bands = regions@;
    let mut k: usize = 0;
    while k < inserts.len()
        invariant
            k <= inserts@.len(),
            inserts@ == insert_list(*mdl),
            !(mdl.inserts matches Some(MdlInserts::Other)),
            models_of(bands) == band_models(mdl.caption, width, height),
            first_fault(inserts@.take(k as int), *format) is None,
            models_of(regions@) =~= models_of(bands) + insert_models(
                inserts@.take(k as int),
                *format,
            ),
        decreases inserts@.len() - k,
    {
        let insert: &MdlInsert = &inserts[k];
        let ghost upto = inserts@.take(k + 1);
        let ghost earlier = insert_models(inserts@.take(k as int), *format);
        proof {
            assert(upto.drop_last() =~= inserts@.take(k as int));
            assert(upto.last() == inserts@[k as int]);
        }
        let found = match CaptionPosition::Insert(&insert.name).resolve(format, width, height) {
            Ok(found) => found,
            Err(e) => {
                proof {
                    assert(fault_of(upto.last(), *format) == Some(e));
                    assert(first_fault(upto, *format) == Some(k as int));
                    lemma_first_fault_of_prefix(inserts@, *format, k + 1);
                }
                return Err(e);
            },
        };
        let text: &String = match &insert.text {
            Some(text) => text,
            None => {
                proof {
                    assert(fault_of(upto.last(), *format) == Some(RenderError::InsertNotText));
                    assert(first_fault(upto, *format) == Some(k as int));
                    lemma_first_fault_of_prefix(inserts@, *format, k + 1);
                }
                return Err(RenderError::InsertNotText);
            },
        };
        proof {
            crate::repository::lemma_insert_position(format.inserts@, insert.name@);
        }
        let ghost before = regions@;
        let mut added: bool = false;
        if let Some((area, alignment)) = found {
            if !text.as_str().is_empty() {
                regions.push(CaptionRegion { area, alignment, text: text.as_str() });
                added = true;
            }
        }
        proof {
            assert(added == takes_text(inserts@[k as int], *format));
            if added {
                let model = insert_model(inserts@[k as int], *format);
                assert(regions@.last().model() == model);
                assert(insert_models(upto, *format) == earlier + seq![model]);
                assert(models_of(before) =~= models_of(bands) + earlier);
                assert(models_of(before).len() == before.len());
                assert(before.len() == models_of(bands).len() + earlier.len());
                assert(regions@.len() == before.len() + 1);
                let now = models_of(bands) + (earlier + seq![model]);
                assert(now.len() == regions@.len());
                assert forall|i: int| 0 <= i < regions@.len() implies models_of(regions@)[i]
                    == now[i] by {
                    if i < before.len() {
                        assert(regions@[i] == before[i]);
                        assert(models_of(before)[i] == (models_of(bands) + earlier)[i]);
                    } else {
                        assert(regions@[i] == regions@.last());
                        assert(now[i] == model);
                    }
                }
                assert(models_of(regions@) =~= now);
            } else {
                assert(insert_models(upto, *format) =~= earlier + Seq::<RegionModel>::empty());
                assert(earlier + Seq::<RegionModel>::empty() =~= earlier);
            }
        }
        k += 1;
    }
    assert(inserts@.take(k as int) =~= inserts@);
    Ok(regions)
}

/// The coverage of a canvas of `width` by `height` pixels on which
/// `glyphs` were painted: the strongest ink at each pixel.
pub open spec fn coverage_plane(glyphs: Seq<PlacedGlyph>, width: u32, height: u32) -> Seq<u8> {
    Seq::new(
        (width * height) as nat,
        |i: int| strongest_ink(glyphs, i % (width as int), i / (width as int)),
    )
}

/// The presence flags of that canvas: raised where any ink is positive.
pub open spec fn presence_plane(glyphs: Seq<PlacedGlyph>, width: u32, height: u32) -> Seq<u8> {
    Seq::new(
        (width * height) as nat,
        |i: int|
            if strongest_ink(glyphs, i % (width as int), i / (width as int)) > 0 {
                PRESENT
            } else {
                0u8
            },
    )
}

/// The caption layer that `glyphs` give on an image of this size: their
/// coverage as brightness, their halo as alpha.
pub open spec fn caption_layer(glyphs: Seq<PlacedGlyph>, width: u32, height: u32) -> Seq<u8> {
    layer_of(
        coverage_plane(glyphs, width, height),
        halo_of(presence_plane(glyphs, width, height), width, height),
    )
}

/// The pixels of the base image with `glyphs` and their halo laid over
/// them.
pub open spec fn captioned_pixels(base: BaseImage, glyphs: Seq<PlacedGlyph>) -> Seq<u8> {
    laid_over(
        base.pixels@,
        caption_layer(glyphs, base.width, base.height),
        base.width,
        base.height,
    )
}

/// Whether no glyph leaves ink within `reach` steps of the pixel
/// `(px, py)`, a diagonal step counting as one.
pub open spec fn clear_around(
    glyphs: Seq<PlacedGlyph>,
    width: u32,
    height: u32,
    reach: int,
    px: int,
    py: int,
) -> bool {
    forall|qx: int, qy: int|
        0 <= qx < width && 0 <= qy < height && px - reach <= qx <= px + reach && py - reach <= qy
            <= py + reach ==> #[trigger] strongest_ink(glyphs, qx, qy) == 0
}

/// A caption changes the image only near its ink: a pixel that has no ink
/// within the halo radius and one more step keeps all four of its bytes.
pub proof fn lemma_far_pixels_unchanged(
    base: BaseImage,
    glyphs: Seq<PlacedGlyph>,
    px: int,
    py: int,
    channel: int,
)
    requires
        base.wf(),
        0 <= px < base.width,
        0 <= py < base.height,
        0 <= channel < 4,
        clear_around(
            glyphs,
            base.width,
            base.height,
            halo_radius_of(base.width, base.height) + 1,
            px,
            py,
        ),
    ensures
        captioned_pixels(base, glyphs)[4 * (py * base.width + px) + channel]
            == base.pixels@[4 * (py * base.width + px) + channel],
{
    let w = base.width as int;
    let h = base.height as int;
    let k = halo_radius_of(base.width, base.height);
    let i = py * w + px;
    lemma_place_of_pixel(px, py, w, h);
    let presence = presence_plane(glyphs, base.width, base.height);
    if near_foreground(presence, w, h, k + 1, px, py) {
        let (qx, qy) = choose|qx: int, qy: int|
            0 <= qx < w && 0 <= qy < h && px - (k + 1) <= qx <= px + (k + 1) && py - (k + 1) <= qy
                <= py + (k + 1) && #[trigger] plane_at(presence, w, qx, qy) > 0;
        lemma_place_of_pixel(qx, qy, w, h);
        assert(strongest_ink(glyphs, qx, qy) == 0);
        assert(presence[qy * w + qx] == 0);
    }
    lemma_halo_clear_away_from_ink(presence, w, h, k, i);
    let j = 4 * i + channel;
    assert(j / 4 == i);
    assert(0 <= j < base.pixels@.len());
    assert((4 * i + 3) / 4 == i && (4 * i + 3) % 4 == 3);
    assert(caption_layer(glyphs, base.width, base.height)[4 * i + 3] == 0);
}

/// Glyphs without any ink leave the image as it is.
pub proof fn lemma_no_ink_keeps_base(base: BaseImage, glyphs: Seq<PlacedGlyph>)
    requires
        base.wf(),
        forall|qx: int, qy: int|
            0 <= qx < base.width && 0 <= qy < base.height ==> #[trigger] strongest_ink(
                glyphs,
                qx,
                qy,
            ) == 0,
    ensures
        captioned_pixels(base, glyphs) == base.pixels@,
{
    let w = base.width as int;
    let h = base.height as int;
    assert forall|j: int| 0 <= j < base.pixels@.len() implies captioned_pixels(base, glyphs)[j]
        == base.pixels@[j] by {
        let i = j / 4;
        if w <= 0 {
            assert(w * h == 0) by (nonlinear_arith)
                requires
                    w == 0,
            ;
        }
        lemma_pixel_of_place(i, w, h);
        lemma_far_pixels_unchanged(base, glyphs, i % w, i / w, j % 4);
    }
    assert(captioned_pixels(base, glyphs) =~= base.pixels@);
}

/// Wherever a glyph leaves ink, the caption layer is opaque: its alpha, the
/// halo, is full there, so that the ink shows in its own brightness.
pub proof fn lemma_layer_opaque_under_ink(
    glyphs: Seq<PlacedGlyph>,
    width: u32,
    height: u32,
    px: int,
    py: int,
)
    requires
        0 <= px < width,
        0 <= py < height,
        strongest_ink(glyphs, px, py) > 0,
    ensures
        halo_of(presence_plane(glyphs, width, height), width, height)[py * width + px]
            == crate::outline::MASK_ON,
        layer_of(
            coverage_plane(glyphs, width, height),
            halo_of(presence_plane(glyphs, width, height), width, height),
        )[4 * (py * width + px) + 3] == crate::outline::MASK_ON,
        layer_of(
            coverage_plane(glyphs, width, height),
            halo_of(presence_plane(glyphs, width, height), width, height),
        )[4 * (py * width + px)] == strongest_ink(glyphs, px, py),
{
    let w = width as int;
    let h = height as int;
    let i = py * w + px;
    crate::outline::lemma_place_of_pixel(px, py, w, h);
    let presence = presence_plane(glyphs, width, height);
    assert(presence[i] == PRESENT);
    crate::outline::lemma_halo_opaque_under_ink(
        presence,
        w,
        h,
        crate::outline::halo_radius_of(width, height),
        i,
    );
    assert((4 * i + 3) / 4 == i && (4 * i + 3) % 4 == 3);
    assert((4 * i) / 4 == i && (4 * i) % 4 == 0);
}

/// `file` is what encoding these pixels gives: the PNG file, or
/// `EncodingFailure` where the encoder refuses them.
pub open spec fn encodes(
    file: Result<Vec<u8>, RenderError>,
    pixels: Seq<u8>,
    width: u32,
    height: u32,
) -> bool {
    match file {
        Ok(bytes) => png_encoding(pixels, width, height) == Some(bytes@),
        Err(e) => e == RenderError::EncodingFailure && png_encoding(pixels, width, height) is None,
    }
}

/// Paints the glyphs onto a blank canvas of the size of the base image,
/// builds their halo, lays both over the base image and encodes the result.
/// An image with pixels is always encoded; one without is refused.
pub fn render_glyphs(base: BaseImage, glyphs: &Vec<PlacedGlyph>) -> (file: Result<
    Vec<u8>,
    RenderError,
>)
    requires
        base.wf(),
        glyphs@.len() > 0 ==> size_in_range(base.width, base.height),
    ensures
        encodes(file, captioned_pixels(base, glyphs@), base.width, base.height),
        file is Ok <==> base.width > 0 && base.height > 0,
{
    if glyphs.len() == 0 {
        proof {
            lemma_no_ink_keeps_base(base, glyphs@);
        }
        return encode(&base);
    }
    let mut canvas: AlphaCanvas = AlphaCanvas::new(base.width, base.height);
    let ghost blank = canvas;
    canvas.paint_all(glyphs);
    proof {
        let w = base.width as int;
        let h = base.height as int;
        assert forall|i: int| 0 <= i < w * h implies canvas.coverage@[i] == coverage_plane(
            glyphs@,
            base.width,
            base.height,
        )[i] && canvas.presence@[i] == presence_plane(glyphs@, base.width, base.height)[i] by {
            if w <= 0 {
                assert(w * h == 0) by (nonlinear_arith)
                    requires
                        w == 0,
                ;
            }
            lemma_pixel_of_place(i, w, h);
            let px = i % w;
            let py = i / w;
            assert(blank.in_bounds(px, py));
            assert(canvas.coverage_at(px, py) == canvas.coverage@[i]);
            assert(canvas.presence_at(px, py) == canvas.presence@[i]);
            assert(blank.coverage_at(px, py) == 0);
            assert(blank.presence_at(px, py) == 0);
        }
        assert(canvas.coverage@ =~= coverage_plane(glyphs@, base.width, base.height));
        assert(canvas.presence@ =~= presence_plane(glyphs@, base.width, base.height));
    }
    let halo = build_halo(&canvas);
    let merged: BaseImage = composite(base, &canvas, &halo);
    encode(&merged)
}

/// The glyphs of a list of layouts, in the order of the layouts.
pub open spec fn all_glyphs(layouts: Seq<FittedLayout>) -> Seq<PlacedGlyph>
    decreases layouts.len(),
{
    if layouts.len() == 0 {
        Seq::empty()
    } else {
        all_glyphs(layouts.drop_last()) + layouts.last().glyphs@
    }
}

/// Whether a request has anything to render in a format: a band text that
/// is not empty, or an insert that takes a text.
pub open spec fn has_texts(mdl: MdlMeme, format: MemeFormat) -> bool {
    !mdl.caption.is_blank() || has_insert_region(insert_list(mdl), format)
}

/// Whether a request can be rendered in a format onto an image of this
/// size: band texts need room for the bands, and anything to render needs
/// an image that can be smoothed. A request without anything to render can
/// always be rendered.
pub open spec fn renderable(mdl: MdlMeme, format: MemeFormat, width: u32, height: u32) -> bool {
    &&& plannable(mdl, width, height)
    &&& has_texts(mdl, format) ==> size_in_range(width, height)
}

/// Tells whether some insert of a list takes a text.
pub fn any_insert_region(inserts: &Vec<MdlInsert>, format: &MemeFormat) -> (found: bool)
    ensures
        found == has_insert_region(inserts@, *format),
{
    let mut k: usize = 0;
    while k < inserts.len()
        invariant
            k <= inserts@.len(),
            forall|j: int| 0 <= j < k ==> !takes_text(#[trigger] inserts@[j], *format),
        decreases inserts@.len() - k,
    {
        let insert: &MdlInsert = &inserts[k];
        if let Some(text) = &insert.text {
            if !text.as_str().is_empty() {
                if let Some(target) = format.find_insert(&insert.name) {
                    if target.has_area() {
                        return true;
                    }
                }
            }
        }
        k += 1;
    }
    false
}

/// Tells whether a request can be rendered in a format onto an image of
/// this size.
pub fn is_renderable(mdl: &MdlMeme, format: &MemeFormat, width: u32, height: u32) -> (ok: bool)
    ensures
        ok == renderable(*mdl, *format, width, height),
{
    let blank: bool = mdl.caption.has_no_text();
    let inserts: bool = match &mdl.inserts {
        Some(MdlInserts::Entries(list)) => any_insert_region(list, format),
        _ => {
            assert(!has_insert_region(insert_list(*mdl), *format));
            false
        },
    };
    (blank || can_hold_bands(width, height)) && ((blank && !inserts) || size_fits(width, height))
}

/// `file` is the outcome of rendering the regions of a request with the
/// given font: each region was fitted by the search, the glyphs of all
/// layouts were laid over the base image, and the result was encoded.
pub open spec fn rendered_from<'a, M, T>(
    file: Result<Vec<u8>, RenderError>,
    base: BaseImage,
    planned: Seq<RegionModel>,
    measure: &M,
    typeset: &T,
    regions: Seq<CaptionRegion<'a>>,
    layouts: Seq<FittedLayout>,
) -> bool where M: Fn(LayoutRequest<'a>) -> Measurement, T: Fn(LayoutRequest<'a>) -> Vec<PlacedGlyph> {
    &&& models_of(regions) == planned
    &&& layouts.len() == regions.len()
    &&& forall|i: int|
        0 <= i < regions.len() ==> fit_outcome(
            regions[i].text,
            regions[i].area,
            regions[i].alignment,
            measure,
            typeset,
            #[trigger] layouts[i],
        )
    &&& encodes(file, captioned_pixels(base, all_glyphs(layouts)), base.width, base.height)
}

/// `file` is the outcome of rendering a request onto a base image in a
/// given format: what fails the request before anything is rendered, or
/// else the encoded image with the regions of the request rendered onto
/// it.
pub open spec fn meme_outcome<'a, M, T>(
    file: Result<Vec<u8>, RenderError>,
    mdl: &'a MdlMeme,
    format: MemeFormat,
    base: BaseImage,
    measure: &M,
    typeset: &T,
) -> bool where M: Fn(LayoutRequest<'a>) -> Measurement, T: Fn(LayoutRequest<'a>) -> Vec<PlacedGlyph> {
    match plan_fault(*mdl, format) {
        Some(e) => file == Err::<Vec<u8>, RenderError>(e),
        None => exists|regions: Seq<CaptionRegion<'a>>, layouts: Seq<FittedLayout>|
            rendered_from(
                file,
                base,
                planned_regions(*mdl, format, base.width, base.height),
                measure,
                typeset,
                regions,
                layouts,
            ),
    }
}

/// Renders a caption request onto the base image of its format and encodes
/// the result.
///
/// Fails where the inserts of the request do not map names to values, and
/// for the first insert whose name the format lacks or whose value is no
/// text; nothing is rendered then. Otherwise every band text and
/// insert text is fitted into its region, all glyphs are painted onto one
/// canvas, and the canvas with its halo is laid over the base image. Empty
/// texts are passed over, and a request that has nothing to say gives back
/// the base image, encoded as it is. An image without pixels cannot be
/// encoded.
pub fn render_meme<'a, M, T>(
    mdl: &'a MdlMeme,
    format: &MemeFormat,
    base: BaseImage,
    measure: &M,
    typeset: &T,
) -> (file: Result<Vec<u8>, RenderError>) where
    M: Fn(LayoutRequest<'a>) -> Measurement,
    T: Fn(LayoutRequest<'a>) -> Vec<PlacedGlyph>,

    requires
        base.wf(),
        renderable(*mdl, *format, base.width, base.height),
        forall|request: LayoutRequest<'a>| measure.requires((request,)),
        forall|request: LayoutRequest<'a>| typeset.requires((request,)),
    ensures
        meme_outcome(file, mdl, *format, base, measure, typeset),
        file is Ok <==> plan_fault(*mdl, *format) is None && base.width > 0 && base.height > 0,
        !has_texts(*mdl, *format) && plan_fault(*mdl, *format) is None ==> encodes(
            file,
            base.pixels@,
            base.width,
            base.height,
        ),
{
    let regions: Vec<CaptionRegion<'a>> = match plan_regions(
        mdl,
        format,
        base.width,
        base.height,
    ) {
        Ok(regions) => regions,
        Err(e) => {
            return Err(e);
        },
    };
    let mut glyphs: Vec<PlacedGlyph> = Vec::new();
    let ghost mut layouts: Seq<FittedLayout> = Seq::empty();
    let mut k: usize = 0;
    while k < regions.len()
        invariant
            k <= regions@.len(),
            layouts.len() == k,
            forall|request: LayoutRequest<'a>| measure.requires((request,)),
            forall|request: LayoutRequest<'a>| typeset.requires((request,)),
            forall|i: int|
                0 <= i < k ==> fit_outcome(
                    regions@[i].text,
                    regions@[i].area,
                    regions@[i].alignment,
                    measure,
                    typeset,
                    #[trigger] layouts[i],
                ),
            glyphs@ == all_glyphs(layouts),
        decreases regions@.len() - k,
    {
        let region: CaptionRegion<'a> = regions[k];
        let mut layout: FittedLayout = fit(
            region.text,
            region.area,
            region.alignment,
            measure,
            typeset,
        );
        proof {
            let ghost earlier = layouts;
            layouts = layouts.push(layout);
            assert(layouts.drop_last() =~= earlier);
        }
        glyphs.append(&mut layout.glyphs);
        k += 1;
    }
    proof {
        lemma_insert_models_need_text(insert_list(*mdl), *format);
        assert(models_of(regions@).len() == regions@.len());
        if regions@.len() == 0 {
            assert(layouts.len() == 0);
            lemma_no_ink_keeps_base(base, glyphs@);
        }
    }
    let file = render_glyphs(base, &glyphs);
    proof {
        assert(rendered_from(
            file,
            base,
            planned_regions(*mdl, *format, base.width, base.height),
            measure,
            typeset,
            regions@,
            layouts,
        ));
    }
    file
}

/// Looks up the format that a request names, has its base image loaded,
/// and renders the request onto it.
///
/// Fails with `UnknownFormat` where the collection has no format under the
/// requested identifier, and with `ImageUnreadable` where `load` gives no
/// image for the path of the format; everything else is as `render_meme`
/// has it. `load` is asked once, and only where the format is known.
pub fn mdl_to_meme<'a, L, M, T>(
    mdl: &'a MdlMeme,
    frepo: &FormatRepo,
    load: &L,
    measure: &M,
    typeset: &T,
) -> (file: Result<Vec<u8>, RenderError>) where
    L: Fn(String) -> Result<BaseImage, String>,
    M: Fn(LayoutRequest<'a>) -> Measurement,
    T: Fn(LayoutRequest<'a>) -> Vec<PlacedGlyph>,

    requires
        forall|path: String| load.requires((path,)),
        forall|path: String, base: BaseImage|
            load.ensures((path,), Ok::<BaseImage, String>(base)) ==> base.wf() && (
            frepo.format_named(mdl.base.format@) matches Some(format) ==> renderable(
                *mdl,
                format,
                base.width,
                base.height,
            )),
        forall|request: LayoutRequest<'a>| measure.requires((request,)),
        forall|request: LayoutRequest<'a>| typeset.requires((request,)),
    ensures
        match frepo.format_named(mdl.base.format@) {
            None => file == Err::<Vec<u8>, RenderError>(
                RenderError::UnknownFormat(mdl.base.format),
            ),
            Some(format) => format_outcome(file, mdl, format, load, measure, typeset),
        },
{
    let format: &MemeFormat = match frepo.get_format(&mdl.base.format) {
        Some(format) => format,
        None => {
            return Err(RenderError::UnknownFormat(mdl.base.format.clone()));
        },
    };
    proof {
        crate::repository::lemma_format_position(frepo.formats@, mdl.base.format@);
    }
    let path: String = format.image_path.clone();
    let loaded: Result<BaseImage, String> = load(path);
    let ghost answer = loaded;
    assert(load.ensures((format.image_path,), answer));
    let file = match loaded {
        Ok(base) => render_meme(mdl, format, base, measure, typeset),
        Err(words) => Err(RenderError::ImageUnreadable(words)),
    };
    proof {
        assert(load.ensures((format.image_path,), answer) && loaded_outcome(
            file,
            mdl,
            *format,
            answer,
            measure,
            typeset,
        ));
        assert(format_outcome(file, mdl, *format, load, measure, typeset));
    }
    file
}

/// `file` is the outcome of a request in a known format: the loader was
/// asked for the image at the path of the format, and `file` is what
/// follows from its answer.
pub open spec fn format_outcome<'a, L, M, T>(
    file: Result<Vec<u8>, RenderError>,
    mdl: &'a MdlMeme,
    format: MemeFormat,
    load: &L,
    measure: &M,
    typeset: &T,
) -> bool where
    L: Fn(String) -> Result<BaseImage, String>,
    M: Fn(LayoutRequest<'a>) -> Measurement,
    T: Fn(LayoutRequest<'a>) -> Vec<PlacedGlyph>,
 {
    exists|loaded: Result<BaseImage, String>|
        load.ensures((format.image_path,), loaded) && #[trigger] loaded_outcome(
            file,
            mdl,
            format,
            loaded,
            measure,
            typeset,
        )
}

/// `file` is the outcome of a request in a format once the loader has
/// answered: the loader's refusal, or what rendering onto the loaded image
/// gives. An image with pixels is encoded unless the request fails, and a
/// request with nothing to render gives back the image as it is.
pub open spec fn loaded_outcome<'a, M, T>(
    file: Result<Vec<u8>, RenderError>,
    mdl: &'a MdlMeme,
    format: MemeFormat,
    loaded: Result<BaseImage, String>,
    measure: &M,
    typeset: &T,
) -> bool where M: Fn(LayoutRequest<'a>) -> Measurement, T: Fn(LayoutRequest<'a>) -> Vec<PlacedGlyph> {
    match loaded {
        Err(words) => file == Err::<Vec<u8>, RenderError>(RenderError::ImageUnreadable(words)),
        Ok(base) => {
            &&& meme_outcome(file, mdl, format, base, measure, typeset)
            &&& file is Ok <==> plan_fault(*mdl, format) is None && base.width > 0 && base.height
                > 0
            &&& !has_texts(*mdl, format) && plan_fault(*mdl, format) is None ==> encodes(
                file,
                base.pixels@,
                base.width,
                base.height,
            )
        },
    }
}

} // verus!
