use mdlchef::canvas::PlacedGlyph;
use mdlchef::fitter::{
    count_spaces, fit, is_accepted, FontSize, LayoutRequest, Measurement, SIZE_FLOOR, SIZE_STEP,
};
use mdlchef::geometry::{Rectangle, VerticalAlignment};
use std::cell::RefCell;

fn area(height: u32) -> Rectangle {
    Rectangle { x: 20, y: 10, width: 260, height }
}

fn units(size: FontSize) -> u32 {
    ((size.fifths + 4) / 5) as u32
}

fn no_glyphs(_: LayoutRequest) -> Vec<PlacedGlyph> {
    Vec::new()
}

#[test]
fn spaces_are_counted() {
    assert_eq!(count_spaces(""), 0);
    assert_eq!(count_spaces("word"), 0);
    assert_eq!(count_spaces("a b"), 1);
    assert_eq!(count_spaces(" a  b "), 4);
    assert_eq!(count_spaces("   "), 3);
}

#[test]
fn only_the_space_character_counts() {
    assert_eq!(count_spaces("a\tb\nc"), 0);
    assert_eq!(count_spaces("a\u{a0}b"), 0);
    assert_eq!(count_spaces("\u{e9}t\u{e9} \u{4e2d}\u{6587} \u{1f600}"), 2);
}

#[test]
fn acceptance_needs_height_and_line_count() {
    assert!(is_accepted(Measurement { height: 80, lines: 1 }, 80, 0));
    assert!(!is_accepted(Measurement { height: 81, lines: 1 }, 80, 0));
    assert!(!is_accepted(Measurement { height: 80, lines: 2 }, 80, 0));
    assert!(is_accepted(Measurement { height: 0, lines: 0 }, 0, 0));
    assert!(is_accepted(Measurement { height: 10, lines: 3 }, 80, 2));
    assert!(!is_accepted(Measurement { height: 10, lines: 4 }, 80, 2));
    assert!(is_accepted(Measurement { height: 10, lines: usize::MAX }, 80, usize::MAX));
    assert!(is_accepted(Measurement { height: 10, lines: usize::MAX }, 80, usize::MAX - 1));
    assert!(!is_accepted(Measurement { height: 10, lines: usize::MAX }, 80, usize::MAX - 2));
}

#[test]
fn search_starts_at_four_fifths_of_the_height() {
    let asked = RefCell::new(Vec::new());
    let measure = |request: LayoutRequest| {
        asked.borrow_mut().push(request.size.fifths);
        Measurement { height: units(request.size), lines: 1 }
    };
    let layout = fit("TOP", area(100), VerticalAlignment::Top, &measure, &no_glyphs);
    assert_eq!(layout.size, FontSize { fifths: 400 });
    assert_eq!(layout.measured, Measurement { height: 80, lines: 1 });
    assert_eq!(*asked.borrow(), vec![400]);
}

#[test]
fn search_goes_down_by_three_units_to_the_first_size_that_fits() {
    let asked = RefCell::new(Vec::new());
    let measure = |request: LayoutRequest| {
        asked.borrow_mut().push(request.size.fifths);
        Measurement { height: 2 * units(request.size), lines: 1 }
    };
    let layout = fit("TOP", area(100), VerticalAlignment::Top, &measure, &no_glyphs);
    assert_eq!(layout.size, FontSize { fifths: 250 });
    assert_eq!(layout.measured, Measurement { height: 100, lines: 1 });
    let expected: Vec<u64> = (0..=10).map(|k| 400 - SIZE_STEP * k).collect();
    assert_eq!(*asked.borrow(), expected);
}

#[test]
fn layout_that_breaks_a_word_is_turned_down() {
    let measure = |request: LayoutRequest| Measurement {
        height: 10,
        lines: if units(request.size) > 40 { 3 } else { 2 },
    };
    let layout = fit("two words", area(100), VerticalAlignment::Middle, &measure, &no_glyphs);
    assert_eq!(layout.size, FontSize { fifths: 190 });
    assert_eq!(layout.measured.lines, 2);
}

#[test]
fn text_that_never_fits_is_laid_out_at_the_floor() {
    let calls = RefCell::new(0usize);
    let measure = |_: LayoutRequest| {
        *calls.borrow_mut() += 1;
        Measurement { height: 1, lines: 2 }
    };
    let layout =
        fit("Pneumonoultramicroscopic", area(100), VerticalAlignment::Top, &measure, &no_glyphs);
    assert_eq!(layout.size, FontSize { fifths: SIZE_FLOOR });
    assert_eq!(layout.measured, Measurement { height: 1, lines: 2 });
    assert_eq!(*calls.borrow(), 26);
}

#[test]
fn text_too_tall_at_every_size_is_laid_out_at_the_floor() {
    let measure = |_: LayoutRequest| Measurement { height: u32::MAX, lines: 1 };
    let layout = fit("tall", area(4000), VerticalAlignment::Bottom, &measure, &no_glyphs);
    assert_eq!(layout.size, FontSize { fifths: 30 });
}

#[test]
fn text_that_fits_at_the_floor_is_never_taller_than_its_area() {
    for height in [0u32, 1, 6, 7, 8, 9, 10, 37, 100, 555] {
        for factor in [1u32, 2, 3, 7] {
            let measure = |request: LayoutRequest| Measurement {
                height: if request.size.fifths <= SIZE_FLOOR {
                    height
                } else {
                    factor * units(request.size)
                },
                lines: 1,
            };
            let layout = fit("T", area(height), VerticalAlignment::Top, &measure, &no_glyphs);
            assert!(layout.measured.height <= height);
            assert_eq!(layout.measured.lines, 1);
        }
    }
}

#[test]
fn area_too_low_for_any_candidate_gets_the_floor() {
    let asked = RefCell::new(Vec::new());
    let measure = |request: LayoutRequest| {
        asked.borrow_mut().push(request.size.fifths);
        Measurement { height: 0, lines: 1 }
    };
    let layout = fit("x", area(7), VerticalAlignment::Top, &measure, &no_glyphs);
    assert_eq!(layout.size, FontSize { fifths: 30 });
    assert_eq!(*asked.borrow(), vec![30]);
    let none = fit("x", area(0), VerticalAlignment::Top, &measure, &no_glyphs);
    assert_eq!(none.size, FontSize { fifths: 30 });
}

#[test]
fn lowest_candidate_lies_just_above_the_floor() {
    let asked = RefCell::new(Vec::new());
    let measure = |request: LayoutRequest| {
        asked.borrow_mut().push(request.size.fifths);
        Measurement { height: 0, lines: if request.size.fifths > 32 { 9 } else { 1 } }
    };
    let layout = fit("x", area(8), VerticalAlignment::Top, &measure, &no_glyphs);
    assert_eq!(layout.size, FontSize { fifths: 32 });
    assert_eq!(*asked.borrow(), vec![32]);
    asked.borrow_mut().clear();
    let stepped = fit("x", area(23), VerticalAlignment::Top, &measure, &no_glyphs);
    assert_eq!(*asked.borrow(), vec![92, 77, 62, 47, 32]);
    assert_eq!(stepped.size, FontSize { fifths: 32 });
}

#[test]
fn candidate_equal_to_the_floor_is_not_tried_as_a_candidate() {
    let asked = RefCell::new(Vec::new());
    let measure = |request: LayoutRequest| {
        asked.borrow_mut().push(request.size.fifths);
        Measurement { height: 99, lines: 1 }
    };
    let layout = fit("x", area(15), VerticalAlignment::Top, &measure, &no_glyphs);
    assert_eq!(*asked.borrow(), vec![60, 45, 30]);
    assert_eq!(layout.size, FontSize { fifths: 30 });
    assert_eq!(layout.measured.height, 99);
}

#[test]
fn very_tall_area_does_not_overflow() {
    let measure = |request: LayoutRequest| Measurement { height: 0, lines: 1 + request.text.len() };
    let layout = fit("", area(u32::MAX), VerticalAlignment::Top, &measure, &no_glyphs);
    assert_eq!(layout.size, FontSize { fifths: 4 * (u32::MAX as u64) });
}

#[test]
fn empty_text_gives_a_layout_without_glyphs() {
    let measure = |_: LayoutRequest| Measurement { height: 0, lines: 0 };
    let layout = fit("", area(50), VerticalAlignment::Middle, &measure, &no_glyphs);
    assert_eq!(layout.size, FontSize { fifths: 200 });
    assert!(layout.glyphs.is_empty());
}

#[test]
fn typesetter_is_asked_once_with_the_request_that_was_accepted() {
    let requests = RefCell::new(Vec::new());
    let measure = |request: LayoutRequest| Measurement {
        height: if request.size.fifths > 100 { 1000 } else { 1 },
        lines: 1,
    };
    let typeset = |request: LayoutRequest| {
        requests.borrow_mut().push((
            request.text.to_string(),
            request.area,
            request.alignment,
            request.size,
        ));
        vec![PlacedGlyph {
            x: request.area.x as i64,
            y: request.area.y as i64,
            width: 1,
            height: 1,
            coverage: vec![request.size.fifths as u8],
        }]
    };
    let layout = fit("BOTTOM", area(50), VerticalAlignment::Bottom, &measure, &typeset);
    assert_eq!(layout.size, FontSize { fifths: 95 });
    assert_eq!(
        *requests.borrow(),
        vec![("BOTTOM".to_string(), area(50), VerticalAlignment::Bottom, FontSize { fifths: 95 })]
    );
    assert_eq!(layout.glyphs.len(), 1);
    assert_eq!(layout.glyphs[0].coverage, vec![95]);
    assert_eq!((layout.glyphs[0].x, layout.glyphs[0].y), (20, 10));
}

#[test]
fn typesetter_is_not_asked_for_an_empty_text() {
    let asked = RefCell::new(0usize);
    let measure = |_: LayoutRequest| Measurement { height: 0, lines: 1 };
    let typeset = |_: LayoutRequest| {
        *asked.borrow_mut() += 1;
        vec![PlacedGlyph { x: 0, y: 0, width: 1, height: 1, coverage: vec![255] }]
    };
    let layout = fit("", area(50), VerticalAlignment::Top, &measure, &typeset);
    assert!(layout.glyphs.is_empty());
    assert_eq!(*asked.borrow(), 0);
    let spaced = fit(" ", area(50), VerticalAlignment::Top, &measure, &typeset);
    assert_eq!(spaced.glyphs.len(), 1);
    assert_eq!(*asked.borrow(), 1);
}
