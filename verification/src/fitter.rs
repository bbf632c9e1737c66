//! Finding the largest font size at which a text fits its rectangle.

use vstd::prelude::*;
use crate::canvas::PlacedGlyph;
use crate::geometry::Rectangle;
use crate::geometry::VerticalAlignment;

verus! {

/// A font size, counted in fifths of a unit so that the four fifths of a
/// rectangle's height at which the search starts is a whole number.
#[derive(Clone, Copy, Debug, PartialEq, Eq, Structural)]
pub struct FontSize {
    pub fifths: u64,
}

/// The search lowers the size by three units at a time.
pub const SIZE_STEP: u64 = 15;

/// Six units: sizes above it are tried, and it is what remains when none fits.
pub const SIZE_FLOOR: u64 = 30;

/// What a typesetter is asked to lay out: a text, centred horizontally and
/// wrapped at word boundaries within `area`, hard line breaks kept, anchored
/// vertically by `alignment`, at the given size.
#[derive(Clone, Copy, Debug)]
pub struct LayoutRequest<'a> {
    pub text: &'a str,
    pub area: Rectangle,
    pub alignment: VerticalAlignment,
    pub size: FontSize,
}

/// What a typesetter reports of a layout: its total height in pixels,
/// rounded up, and its number of lines.
#[derive(Clone, Copy, Debug, PartialEq, Eq, Structural)]
pub struct Measurement {
    pub height: u32,
    pub lines: usize,
}

/// A text laid out at the size that the search settled on.
#[derive(Debug)]
pub struct FittedLayout {
    pub size: FontSize,
    pub measured: Measurement,
    pub glyphs: Vec<PlacedGlyph>,
}

/// Whether `fifths` is one of the sizes that the search tries for a
/// rectangle of this height: four fifths of the height, lowered by whole
/// steps, and above the floor.
pub open spec fn is_candidate(rect_height: u32, fifths: int) -> bool {
    &&& SIZE_FLOOR < fifths <= 4 * rect_height
    &&& (4 * rect_height - fifths) % (SIZE_STEP as int) == 0
}

/// A layout is accepted when it is no taller than the rectangle and has no
/// more lines than the text has spaces, plus one: a layout with more lines
/// has broken a word.
pub open spec fn accepts(measured: Measurement, rect_height: u32, spaces: nat) -> bool {
    measured.height <= rect_height && measured.lines <= spaces + 1
}

/// The request for `text` in `area` at a size of `fifths`.
pub open spec fn request_at<'a>(
    text: &'a str,
    area: Rectangle,
    alignment: VerticalAlignment,
    fifths: int,
) -> LayoutRequest<'a> {
    LayoutRequest { text, area, alignment, size: FontSize { fifths: fifths as u64 } }
}

/// Number of space characters in a text.
pub open spec fn space_count(text: Seq<char>) -> nat
    decreases text.len(),
{
    if text.len() == 0 {
        0
    } else {
        space_count(text.drop_last()) + (if text.last() == ' ' {
            1nat
        } else {
            0nat
        })
    }
}

/// Counts the space characters of a text.
pub fn count_spaces(text: &str) -> (count: usize)
    ensures
        count == space_count(text@),
{
    let length: usize = text.unicode_len();
    let mut count: usize = 0;
    for c in it: text.chars()
        invariant
            it.seq() == text@,
            length == text@.len(),
            count == space_count(text@.take(it.index() as int)),
            count <= it.index(),
    {
        proof {
            let done = text@.take(it.index() as int);
            let next = text@.take(it.index() + 1);
            assert(next.drop_last() =~= done);
            assert(next.last() == c);
        }
        if c == ' ' {
            count += 1;
        }
    }
    proof {
        assert(text@.take(text@.len() as int) =~= text@);
    }
    count
}

/// What the search promises of its result, whatever `measure` and `typeset`
/// answer: the size is the floor or a candidate; a candidate was taken
/// because its measurement was accepted; every candidate above it was
/// measured and turned down; and the measurement and the glyphs are what
/// the two functions answered for the size that was taken. An empty text
/// has no glyphs, and `typeset` is not asked for any.
pub open spec fn fit_outcome<'a, M, T>(
    text: &'a str,
    area: Rectangle,
    alignment: VerticalAlignment,
    measure: &M,
    typeset: &T,
    layout: FittedLayout,
) -> bool where M: Fn(LayoutRequest<'a>) -> Measurement, T: Fn(LayoutRequest<'a>) -> Vec<PlacedGlyph> {
    &&& layout.size.fifths == SIZE_FLOOR || is_candidate(area.height, layout.size.fifths as int)
    &&& is_candidate(area.height, layout.size.fifths as int) ==> accepts(
        layout.measured,
        area.height,
        space_count(text@),
    )
    &&& forall|fifths: int|
        #[trigger] is_candidate(area.height, fifths) && fifths > layout.size.fifths ==> exists|
            m: Measurement,
        |
            measure.ensures((request_at(text, area, alignment, fifths),), m) && !accepts(
                m,
                area.height,
                space_count(text@),
            )
    &&& measure.ensures(
        (request_at(text, area, alignment, layout.size.fifths as int),),
        layout.measured,
    )
    &&& if text@.len() == 0 {
        layout.glyphs@.len() == 0
    } else {
        typeset.ensures(
            (request_at(text, area, alignment, layout.size.fifths as int),),
            layout.glyphs,
        )
    }
}

/// Decides whether a measured layout is accepted.
pub fn is_accepted(measured: Measurement, rect_height: u32, spaces: usize) -> (ok: bool)
    ensures
        ok == accepts(measured, rect_height, spaces as nat),
{
    measured.height <= rect_height && (measured.lines <= spaces || measured.lines - 1 == spaces)
}

/// Searches the largest size at which `text` fits `area`, and lays the text
/// out at that size.
///
/// The sizes tried start at four fifths of the height of `area` and go down
/// by `SIZE_STEP` while they are above `SIZE_FLOOR`. The first one whose
/// measurement is accepted is taken. If none is, the text is laid out at
/// `SIZE_FLOOR` all the same, and may then reach beyond `area`.
///
/// `measure` and `typeset` stand for the font. Whatever they answer, the
/// search ends after at most one call of `measure` for each candidate and
/// one for the floor.
pub fn fit<'a, M, T>(
    text: &'a str,
    area: Rectangle,
    alignment: VerticalAlignment,
    measure: &M,
    typeset: &T,
) -> (layout: FittedLayout) where
    M: Fn(LayoutRequest<'a>) -> Measurement,
    T: Fn(LayoutRequest<'a>) -> Vec<PlacedGlyph>,

    requires
        forall|request: LayoutRequest<'a>| measure.requires((request,)),
        forall|request: LayoutRequest<'a>| typeset.requires((request,)),
    ensures
        fit_outcome(text, area, alignment, measure, typeset, layout),
        (forall|m: Measurement|
            measure.ensures((request_at(text, area, alignment, SIZE_FLOOR as int),), m)
                ==> accepts(m, area.height, space_count(text@))) ==> accepts(
            layout.measured,
            area.height,
            space_count(text@),
        ),
        (forall|fifths: int, m: Measurement|
            is_candidate(area.height, fifths) && measure.ensures(
                (request_at(text, area, alignment, fifths),),
                m,
            ) ==> !accepts(m, area.height, space_count(text@))) ==> layout.size.fifths
            == SIZE_FLOOR,
{
    let spaces: usize = count_spaces(text);
    let mut fifths: u64 = 4 * (area.height as u64);
    while fifths > SIZE_FLOOR
        invariant
            spaces == space_count(text@),
            fifths <= 4 * area.height,
            (4 * area.height - fifths) % (SIZE_STEP as int) == 0,
            forall|request: LayoutRequest<'a>| measure.requires((request,)),
            forall|request: LayoutRequest<'a>| typeset.requires((request,)),
            forall|other: int|
                #[trigger] is_candidate(area.height, other) && other > fifths ==> exists|
                    m: Measurement,
                |
                    measure.ensures((request_at(text, area, alignment, other),), m) && !accepts(
                        m,
                        area.height,
                        space_count(text@),
                    ),
        decreases fifths,
    {
        let request = LayoutRequest { text, area, alignment, size: FontSize { fifths } };
        assert(request == request_at(text, area, alignment, fifths as int));
        let measured: Measurement = measure(request);
        if is_accepted(measured, area.height, spaces) {
            let glyphs: Vec<PlacedGlyph> = if text.is_empty() {
                Vec::new()
            } else {
                typeset(request)
            };
            return FittedLayout { size: FontSize { fifths }, measured, glyphs };
        }
        fifths = fifths - SIZE_STEP;
    }
    let request = LayoutRequest { text, area, alignment, size: FontSize { fifths: SIZE_FLOOR } };
    assert(request == request_at(text, area, alignment, SIZE_FLOOR as int));
    let measured: Measurement = measure(request);
    let glyphs: Vec<PlacedGlyph> = if text.is_empty() {
        Vec::new()
    } else {
        typeset(request)
    };
    FittedLayout { size: FontSize { fifths: SIZE_FLOOR }, measured, glyphs }
}

} // verus!
