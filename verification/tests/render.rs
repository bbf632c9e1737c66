use mdlchef::canvas::PlacedGlyph;
use mdlchef::compositor::BaseImage;
use mdlchef::error::RenderError;
use mdlchef::fitter::{FontSize, LayoutRequest, Measurement};
use mdlchef::geometry::{Point, Rectangle, VerticalAlignment};
use mdlchef::mdl::{empty_mdl_caption, MdlBase, MdlCaption, MdlInsert, MdlInserts, MdlMeme};
use mdlchef::render::{
    is_renderable, mdl_to_meme, plan_regions, render_glyphs, render_meme, CaptionPosition,
};
use mdlchef::repository::{FormatRepo, InsertArea, MemeFormat};
use std::cell::RefCell;

fn units(size: FontSize) -> u32 {
    ((size.fifths + 4) / 5) as u32
}

/// A stand-in for a font: every character but the space is a solid block,
/// half as wide as it is high, and a text is one line.
fn measure_blocks(request: LayoutRequest) -> Measurement {
    Measurement { height: units(request.size), lines: 1 }
}

fn typeset_blocks(request: LayoutRequest) -> Vec<PlacedGlyph> {
    let height = units(request.size);
    let width = height / 2;
    let y = match request.alignment {
        VerticalAlignment::Top => request.area.y,
        VerticalAlignment::Middle => request.area.y + request.area.height.saturating_sub(height) / 2,
        VerticalAlignment::Bottom => request.area.y + request.area.height.saturating_sub(height),
    };
    let mut glyphs = Vec::new();
    for (i, c) in request.text.chars().enumerate() {
        if c != ' ' {
            glyphs.push(PlacedGlyph {
                x: (request.area.x + (i as u32) * (width + 1)) as i64,
                y: y as i64,
                width,
                height,
                coverage: vec![255; (width * height) as usize],
            });
        }
    }
    glyphs
}

fn transparent(width: u32, height: u32) -> BaseImage {
    BaseImage { width, height, pixels: vec![0; (width * height * 4) as usize] }
}

fn patterned(width: u32, height: u32) -> BaseImage {
    let mut image = transparent(width, height);
    for (i, byte) in image.pixels.iter_mut().enumerate() {
        *byte = ((i * 73 + i / 5 + 11) % 256) as u8;
    }
    image
}

fn decode(bytes: &[u8]) -> BaseImage {
    let decoded = image::load_from_memory(bytes).unwrap();
    assert_eq!(decoded.color(), image::ColorType::Rgba8);
    let rgba = decoded.into_rgba8();
    BaseImage { width: rgba.width(), height: rgba.height(), pixels: rgba.into_raw() }
}

fn rows(image: &BaseImage, from: u32, to: u32) -> &[u8] {
    &image.pixels[(from * image.width * 4) as usize..(to * image.width * 4) as usize]
}

fn request(format: &str, caption: MdlCaption, inserts: Option<Vec<MdlInsert>>) -> MdlMeme {
    MdlMeme {
        version: "MDL/1.1".to_string(),
        kind: "meme".to_string(),
        base: MdlBase { format: format.to_string() },
        caption,
        inserts: inserts.map(MdlInserts::Entries),
    }
}

fn render<'a, M, T>(
    mdl: &'a MdlMeme,
    repo: &FormatRepo,
    base: BaseImage,
    measure: &M,
    typeset: &T,
) -> Result<Vec<u8>, RenderError>
where
    M: Fn(LayoutRequest<'a>) -> Measurement,
    T: Fn(LayoutRequest<'a>) -> Vec<PlacedGlyph>,
{
    mdl_to_meme(mdl, repo, &|_| Ok(base.clone()), measure, typeset)
}

fn logo_format() -> MemeFormat {
    let mut format = MemeFormat::new("Meme.Plain".to_string(), "plain.png".to_string());
    format.add_insert(logo_area());
    format
}

fn texts(top: Option<&str>, center: Option<&str>, bottom: Option<&str>) -> MdlCaption {
    MdlCaption {
        top_text: top.map(|t| t.to_string()),
        center_text: center.map(|t| t.to_string()),
        bottom_text: bottom.map(|t| t.to_string()),
    }
}

fn insert(name: &str, text: &str) -> MdlInsert {
    MdlInsert { name: name.to_string(), text: Some(text.to_string()) }
}

fn repo_with(inserts: Vec<InsertArea>) -> FormatRepo {
    let mut format = MemeFormat::new("Meme.Plain".to_string(), "plain.png".to_string());
    for area in inserts {
        format.add_insert(area);
    }
    let mut repo = FormatRepo::new("Meme".to_string());
    repo.register(format);
    repo
}

fn logo_area() -> InsertArea {
    InsertArea {
        name: "logo".to_string(),
        top_left: Point { x: 50, y: 60 },
        bottom_right: Point { x: 150, y: 110 },
    }
}

#[test]
fn top_and_bottom_text_leave_the_centre_third_untouched() {
    let mdl = request("Meme.Plain", texts(Some("TOP"), None, Some("BOTTOM")), None);
    let repo = repo_with(vec![]);
    let base = transparent(300, 300);
    assert!(is_renderable(&mdl, &logo_format(), 300, 300));
    let bytes = render(&mdl, &repo, base.clone(), &measure_blocks, &typeset_blocks).unwrap();
    assert_eq!(&bytes[..8], &[137, 80, 78, 71, 13, 10, 26, 10]);
    let out = decode(&bytes);
    assert_eq!((out.width, out.height), (300, 300));
    assert_eq!(out.pixels.len(), 300 * 300 * 4);
    assert!(rows(&out, 0, 100).chunks(4).any(|pixel| pixel[3] != 0));
    assert!(rows(&out, 200, 300).chunks(4).any(|pixel| pixel[3] != 0));
    assert_eq!(rows(&out, 100, 200), rows(&base, 100, 200));
    assert_ne!(rows(&out, 0, 100), rows(&base, 0, 100));
    assert_ne!(rows(&out, 200, 300), rows(&base, 200, 300));
}

#[test]
fn text_is_white_with_a_black_halo_around_it() {
    let mdl = request("Meme.Plain", texts(Some("T"), None, None), None);
    let repo = repo_with(vec![]);
    let bytes =
        render(&mdl, &repo, transparent(300, 300), &measure_blocks, &typeset_blocks).unwrap();
    let out = decode(&bytes);
    let pixel = |x: u32, y: u32| {
        let at = ((y * 300 + x) * 4) as usize;
        [out.pixels[at], out.pixels[at + 1], out.pixels[at + 2], out.pixels[at + 3]]
    };
    // The block of "T" is 32 wide and 64 high, at (20, 10); the halo radius is 2.
    assert_eq!(pixel(20, 10), [255, 255, 255, 255]);
    assert_eq!(pixel(51, 73), [255, 255, 255, 255]);
    assert_eq!(pixel(19, 40), [0, 0, 0, 255]);
    assert_eq!(pixel(18, 40), [0, 0, 0, 170]);
    assert_eq!(pixel(17, 40), [0, 0, 0, 85]);
    assert_eq!(pixel(16, 40), [0, 0, 0, 0]);
    assert_eq!(pixel(52, 40), [0, 0, 0, 255]);
    assert_eq!(pixel(55, 40), [0, 0, 0, 0]);
    assert_eq!(pixel(30, 76), [0, 0, 0, 85]);
    assert_eq!(pixel(30, 77), [0, 0, 0, 0]);
}

#[test]
fn unknown_insert_fails_the_whole_request() {
    let mdl = request(
        "Meme.Plain",
        texts(Some("TOP"), None, None),
        Some(vec![insert("logo", "text")]),
    );
    let repo = repo_with(vec![]);
    let called = RefCell::new(false);
    let measure = |r: LayoutRequest| {
        *called.borrow_mut() = true;
        measure_blocks(r)
    };
    let result = render(&mdl, &repo, transparent(300, 300), &measure, &typeset_blocks);
    assert_eq!(result, Err(RenderError::UnknownInsert("logo".to_string())));
    assert!(!*called.borrow());
}

#[test]
fn first_unknown_insert_is_the_one_reported() {
    let mdl = request(
        "Meme.Plain",
        empty_mdl_caption(),
        Some(vec![insert("logo", "a"), insert("nose", "b"), insert("ear", "c")]),
    );
    let repo = repo_with(vec![logo_area()]);
    let result =
        render(&mdl, &repo, transparent(300, 300), &measure_blocks, &typeset_blocks);
    assert_eq!(result, Err(RenderError::UnknownInsert("nose".to_string())));
}

#[test]
fn unknown_format_is_reported_before_anything_else() {
    let mdl =
        request("Meme.Missing", texts(Some("TOP"), None, None), Some(vec![insert("logo", "x")]));
    let repo = repo_with(vec![]);
    let result =
        render(&mdl, &repo, transparent(300, 300), &measure_blocks, &typeset_blocks);
    assert_eq!(result, Err(RenderError::UnknownFormat("Meme.Missing".to_string())));
    let empty = FormatRepo::new("Meme".to_string());
    let again = render(&mdl, &empty, transparent(1, 1), &measure_blocks, &typeset_blocks);
    assert_eq!(again, Err(RenderError::UnknownFormat("Meme.Missing".to_string())));
}

#[test]
fn request_without_text_gives_back_the_base_image() {
    let mdl = request("Meme.Plain", empty_mdl_caption(), None);
    let repo = repo_with(vec![logo_area()]);
    for base in [patterned(300, 300), patterned(7, 3), patterned(1, 1), transparent(64, 40)] {
        assert!(is_renderable(&mdl, &logo_format(), base.width, base.height));
        let bytes =
            render(&mdl, &repo, base.clone(), &measure_blocks, &typeset_blocks).unwrap();
        assert_eq!(decode(&bytes), base);
    }
}

#[test]
fn request_with_an_empty_insert_list_gives_back_the_base_image() {
    let mdl = request("Meme.Plain", empty_mdl_caption(), Some(vec![]));
    let repo = repo_with(vec![]);
    let base = patterned(20, 10);
    let bytes = render(&mdl, &repo, base.clone(), &measure_blocks, &typeset_blocks).unwrap();
    assert_eq!(decode(&bytes), base);
}

#[test]
fn request_with_empty_texts_gives_back_the_base_image() {
    let mdl = request(
        "Meme.Plain",
        texts(Some(""), Some(""), Some("")),
        Some(vec![insert("logo", "")]),
    );
    let repo = repo_with(vec![logo_area()]);
    let inked = |_: LayoutRequest| {
        vec![PlacedGlyph { x: 0, y: 0, width: 1, height: 1, coverage: vec![255] }]
    };
    for base in [patterned(300, 300), patterned(7, 3), patterned(1, 1)] {
        assert!(is_renderable(&mdl, &logo_format(), base.width, base.height));
        let bytes = render(&mdl, &repo, base.clone(), &measure_blocks, &inked).unwrap();
        assert_eq!(decode(&bytes), base);
    }
}

#[test]
fn empty_text_for_an_unknown_insert_still_fails() {
    let mdl = request("Meme.Plain", empty_mdl_caption(), Some(vec![insert("nose", "")]));
    let repo = repo_with(vec![logo_area()]);
    let result = render(&mdl, &repo, patterned(7, 3), &measure_blocks, &typeset_blocks);
    assert_eq!(result, Err(RenderError::UnknownInsert("nose".to_string())));
}

#[test]
fn empty_texts_have_no_region() {
    let mdl = request(
        "Meme.Plain",
        texts(Some(""), Some("mid"), Some("")),
        Some(vec![insert("logo", ""), insert("logo", "x")]),
    );
    let repo = repo_with(vec![logo_area()]);
    let regions = plan_regions(&mdl, &repo.formats[0], 300, 300).unwrap();
    let found: Vec<&str> = regions.iter().map(|r| r.text).collect();
    assert_eq!(found, vec!["mid", "x"]);
}

#[test]
fn caption_changes_the_image_only_near_its_ink() {
    let base = patterned(120, 90);
    let glyph = PlacedGlyph { x: 50, y: 40, width: 4, height: 3, coverage: vec![255; 12] };
    let out = decode(&render_glyphs(base.clone(), &vec![glyph]).unwrap());
    // The halo radius is 1, so nothing beyond two pixels of the ink may change.
    for y in 0..90u32 {
        for x in 0..120u32 {
            let at = ((y * 120 + x) * 4) as usize;
            let near = (48..=55).contains(&x) && (38..=44).contains(&y);
            if !near {
                assert_eq!(&out.pixels[at..at + 4], &base.pixels[at..at + 4]);
            }
        }
    }
    let inked = ((41 * 120 + 51) * 4) as usize;
    assert_eq!(&out.pixels[inked..inked + 4], &[255, 255, 255, 255]);
}

#[test]
fn glyph_with_a_negative_origin_is_clipped_at_the_edge() {
    let base = transparent(20, 20);
    let mut coverage = vec![255u8; 16];
    coverage[15] = 7;
    let glyph = PlacedGlyph { x: -3, y: -3, width: 4, height: 4, coverage };
    let out = decode(&render_glyphs(base, &vec![glyph]).unwrap());
    assert_eq!(&out.pixels[..4], &[7, 7, 7, 255]);
    assert_eq!(&out.pixels[4..8], &[0, 0, 0, 170]);
}

#[test]
fn unknown_format_needs_no_room_for_captions() {
    let mdl = request("Meme.Missing", texts(Some("TOP"), None, None), None);
    let repo = repo_with(vec![]);
    let result = render(&mdl, &repo, transparent(1, 1), &measure_blocks, &typeset_blocks);
    assert_eq!(result, Err(RenderError::UnknownFormat("Meme.Missing".to_string())));
}

#[test]
fn regions_are_fitted_in_order_bands_first() {
    let mdl = request(
        "Meme.Plain",
        texts(Some("one"), Some("two"), Some("three")),
        Some(vec![insert("logo", "four")]),
    );
    let repo = repo_with(vec![logo_area()]);
    let seen = RefCell::new(Vec::new());
    let typeset = |r: LayoutRequest| {
        seen.borrow_mut().push((r.text.to_string(), r.area, r.alignment, r.size));
        Vec::new()
    };
    render(&mdl, &repo, transparent(300, 300), &measure_blocks, &typeset).unwrap();
    let band = |y: u32| Rectangle { x: 20, y, width: 260, height: 80 };
    assert_eq!(
        *seen.borrow(),
        vec![
            ("one".to_string(), band(10), VerticalAlignment::Top, FontSize { fifths: 320 }),
            ("two".to_string(), band(90), VerticalAlignment::Middle, FontSize { fifths: 320 }),
            ("three".to_string(), band(210), VerticalAlignment::Bottom, FontSize { fifths: 320 }),
            (
                "four".to_string(),
                Rectangle { x: 50, y: 60, width: 100, height: 50 },
                VerticalAlignment::Middle,
                FontSize { fifths: 200 },
            ),
        ]
    );
}

#[test]
fn insert_text_is_rendered_into_its_rectangle() {
    let mdl = request("Meme.Plain", empty_mdl_caption(), Some(vec![insert("logo", "X")]));
    let repo = repo_with(vec![logo_area()]);
    let base = transparent(200, 150);
    let bytes = render(&mdl, &repo, base.clone(), &measure_blocks, &typeset_blocks).unwrap();
    let out = decode(&bytes);
    // A block 20 wide and 40 high, centred vertically in (50, 60) to (150, 110).
    let pixel = |x: u32, y: u32| {
        let at = ((y * 200 + x) * 4) as usize;
        [out.pixels[at], out.pixels[at + 1], out.pixels[at + 2], out.pixels[at + 3]]
    };
    assert_eq!(pixel(50, 65), [255, 255, 255, 255]);
    assert_eq!(pixel(69, 104), [255, 255, 255, 255]);
    assert_eq!(pixel(49, 64), [0, 0, 0, 113]);
    assert_eq!(pixel(70, 80), [0, 0, 0, 170]);
    assert_eq!(pixel(72, 80), [0, 0, 0, 0]);
    assert_eq!(rows(&out, 0, 63), rows(&base, 0, 63));
    assert_eq!(rows(&out, 107, 150), rows(&base, 107, 150));
}

#[test]
fn later_insert_of_the_same_name_counts() {
    let moved = InsertArea {
        name: "logo".to_string(),
        top_left: Point { x: 0, y: 0 },
        bottom_right: Point { x: 10, y: 20 },
    };
    let repo = repo_with(vec![logo_area(), moved]);
    let mdl = request("Meme.Plain", empty_mdl_caption(), Some(vec![insert("logo", "X")]));
    let regions = plan_regions(&mdl, &repo.formats[0], 200, 150).unwrap();
    assert_eq!(regions.len(), 1);
    assert_eq!(regions[0].area, Rectangle { x: 0, y: 0, width: 10, height: 20 });
    assert_eq!(regions[0].alignment, VerticalAlignment::Middle);
    assert_eq!(regions[0].text, "X");
}

#[test]
fn plan_lists_bands_then_inserts() {
    let mdl = request(
        "Meme.Plain",
        texts(None, Some("mid"), Some("low")),
        Some(vec![insert("logo", "a"), insert("logo", "b")]),
    );
    let repo = repo_with(vec![logo_area()]);
    let regions = plan_regions(&mdl, &repo.formats[0], 640, 200).unwrap();
    let found: Vec<(Rectangle, VerticalAlignment, &str)> =
        regions.iter().map(|r| (r.area, r.alignment, r.text)).collect();
    let logo = Rectangle { x: 50, y: 60, width: 100, height: 50 };
    assert_eq!(
        found,
        vec![
            (Rectangle { x: 20, y: 56, width: 600, height: 46 }, VerticalAlignment::Middle, "mid"),
            (Rectangle { x: 20, y: 144, width: 600, height: 46 }, VerticalAlignment::Bottom, "low"),
            (logo, VerticalAlignment::Middle, "a"),
            (logo, VerticalAlignment::Middle, "b"),
        ]
    );
}

#[test]
fn plan_of_a_request_without_text_is_empty() {
    let mdl = request("Meme.Plain", empty_mdl_caption(), None);
    let repo = repo_with(vec![logo_area()]);
    assert!(plan_regions(&mdl, &repo.formats[0], 0, 0).unwrap().is_empty());
}

#[test]
fn plan_fails_on_an_unknown_insert() {
    let mdl = request("Meme.Plain", empty_mdl_caption(), Some(vec![insert("Logo", "a")]));
    let repo = repo_with(vec![logo_area()]);
    let planned = plan_regions(&mdl, &repo.formats[0], 300, 300);
    assert_eq!(planned.err(), Some(RenderError::UnknownInsert("Logo".to_string())));
}

#[test]
fn image_without_pixels_fails_at_encoding() {
    let mdl = request("Meme.Plain", empty_mdl_caption(), None);
    let repo = repo_with(vec![]);
    let result = render(&mdl, &repo, transparent(0, 0), &measure_blocks, &typeset_blocks);
    assert_eq!(result, Err(RenderError::EncodingFailure));
    assert_eq!(render_glyphs(transparent(0, 5), &Vec::new()), Err(RenderError::EncodingFailure));
}

#[test]
fn rendering_glyphs_directly() {
    let base = transparent(30, 30);
    let glyph = PlacedGlyph { x: 10, y: 10, width: 2, height: 2, coverage: vec![255, 128, 0, 255] };
    let out = decode(&render_glyphs(base, &vec![glyph]).unwrap());
    let pixel = |x: u32, y: u32| {
        let at = ((y * 30 + x) * 4) as usize;
        [out.pixels[at], out.pixels[at + 1], out.pixels[at + 2], out.pixels[at + 3]]
    };
    assert_eq!(pixel(10, 10), [255, 255, 255, 255]);
    assert_eq!(pixel(11, 10), [128, 128, 128, 255]);
    assert_eq!(pixel(10, 11), [0, 0, 0, 226]);
    assert_eq!(pixel(11, 11), [255, 255, 255, 255]);
    assert_eq!(pixel(8, 10), [0, 0, 0, 85]);
    assert_eq!(pixel(7, 10), [0, 0, 0, 0]);
}

#[test]
fn rendering_no_glyphs_keeps_every_pixel() {
    let base = patterned(9, 4);
    assert_eq!(decode(&render_glyphs(base.clone(), &Vec::new()).unwrap()), base);
}

#[test]
fn glyphs_outside_the_image_are_clipped() {
    let base = transparent(20, 20);
    let glyphs = vec![
        PlacedGlyph { x: 18, y: 18, width: 5, height: 5, coverage: vec![255; 25] },
        PlacedGlyph { x: 500, y: 500, width: 5, height: 5, coverage: vec![255; 25] },
    ];
    let out = decode(&render_glyphs(base, &glyphs).unwrap());
    assert_eq!((out.width, out.height), (20, 20));
    assert_eq!(&out.pixels[(19 * 20 + 19) * 4..], &[255, 255, 255, 255]);
    assert_eq!(&out.pixels[..4], &[0, 0, 0, 0]);
}

#[test]
fn renderable_needs_room_for_bands_only_with_band_text() {
    let plain = request("f", empty_mdl_caption(), None);
    let banded = request("f", texts(None, None, Some("x")), None);
    let with_insert = request("f", empty_mdl_caption(), Some(vec![insert("logo", "x")]));
    assert!(is_renderable(&plain, &logo_format(), 0, 0));
    assert!(is_renderable(&plain, &logo_format(), 10, 10));
    assert!(!is_renderable(&banded, &logo_format(), 40, 300));
    assert!(!is_renderable(&banded, &logo_format(), 300, 62));
    assert!(is_renderable(&banded, &logo_format(), 41, 63));
    assert!(is_renderable(&with_insert, &logo_format(), 10, 10));
}

#[test]
fn renderable_needs_a_halo_radius_in_range_only_with_text() {
    let plain = request("f", empty_mdl_caption(), None);
    let empty_list = request("f", empty_mdl_caption(), Some(vec![]));
    let banded = request("f", texts(Some("x"), None, None), None);
    let with_insert = request("f", empty_mdl_caption(), Some(vec![insert("logo", "x")]));
    assert!(is_renderable(&plain, &logo_format(), u32::MAX, u32::MAX));
    assert!(is_renderable(&empty_list, &logo_format(), u32::MAX, u32::MAX));
    assert!(is_renderable(&banded, &logo_format(), 76_800, 100));
    assert!(is_renderable(&banded, &logo_format(), 16_843_007, 100));
    assert!(!is_renderable(&banded, &logo_format(), 16_843_008, 100));
    assert!(is_renderable(&with_insert, &logo_format(), 40_000, 36_800));
    assert!(!is_renderable(&with_insert, &logo_format(), 1, 16_843_008));
    assert!(is_renderable(&with_insert, &logo_format(), 1, 16_843_007));
}

#[test]
fn empty_texts_can_be_rendered_onto_any_image() {
    let quiet = request(
        "f",
        texts(Some(""), Some(""), Some("")),
        Some(vec![insert("logo", ""), insert("sign", "")]),
    );
    assert!(is_renderable(&quiet, &logo_format(), 0, 0));
    assert!(is_renderable(&quiet, &logo_format(), 10, 10));
    assert!(is_renderable(&quiet, &logo_format(), u32::MAX, u32::MAX));
    let spoken = request("f", texts(Some(""), None, None), Some(vec![insert("logo", "x")]));
    assert!(is_renderable(&spoken, &logo_format(), 10, 10));
    assert!(!is_renderable(&spoken, &logo_format(), u32::MAX, 10));
}

#[test]
fn bands_resolve_to_their_rectangles() {
    let format = MemeFormat::new("Meme.Plain".to_string(), "plain.png".to_string());
    assert_eq!(
        CaptionPosition::Top.resolve(&format, 300, 300),
        Ok(Some((Rectangle { x: 20, y: 10, width: 260, height: 80 }, VerticalAlignment::Top)))
    );
    assert_eq!(
        CaptionPosition::Center.resolve(&format, 300, 300),
        Ok(Some((Rectangle { x: 20, y: 90, width: 260, height: 80 }, VerticalAlignment::Middle)))
    );
    assert_eq!(
        CaptionPosition::Bottom.resolve(&format, 300, 300),
        Ok(Some((Rectangle { x: 20, y: 210, width: 260, height: 80 }, VerticalAlignment::Bottom)))
    );
}

#[test]
fn insert_resolves_to_the_rectangle_between_its_corners() {
    let repo = repo_with(vec![logo_area()]);
    let name = "logo".to_string();
    assert_eq!(
        CaptionPosition::Insert(&name).resolve(&repo.formats[0], 1, 1),
        Ok(Some((Rectangle { x: 50, y: 60, width: 100, height: 50 }, VerticalAlignment::Middle)))
    );
}

#[test]
fn insert_that_the_format_lacks_does_not_resolve() {
    let repo = repo_with(vec![logo_area()]);
    let name = "sign".to_string();
    assert_eq!(
        CaptionPosition::Insert(&name).resolve(&repo.formats[0], 300, 300),
        Err(RenderError::UnknownInsert("sign".to_string()))
    );
}

#[test]
fn rendering_onto_a_given_format() {
    let repo = repo_with(vec![logo_area()]);
    let format = &repo.formats[0];
    let base = transparent(200, 150);
    let mdl = request("anything", empty_mdl_caption(), Some(vec![insert("logo", "X")]));
    let direct =
        render_meme(&mdl, format, base.clone(), &measure_blocks, &typeset_blocks).unwrap();
    let named = request("Meme.Plain", empty_mdl_caption(), Some(vec![insert("logo", "X")]));
    let looked_up = render(&named, &repo, base, &measure_blocks, &typeset_blocks).unwrap();
    assert_eq!(direct, looked_up);
    let wrong = request("anything", empty_mdl_caption(), Some(vec![insert("nose", "X")]));
    assert_eq!(
        render_meme(&wrong, format, transparent(200, 150), &measure_blocks, &typeset_blocks),
        Err(RenderError::UnknownInsert("nose".to_string()))
    );
}

fn bare_area(name: &str, x1: u32, y1: u32, x2: u32, y2: u32) -> InsertArea {
    InsertArea {
        name: name.to_string(),
        top_left: Point { x: x1, y: y1 },
        bottom_right: Point { x: x2, y: y2 },
    }
}

#[test]
fn insert_without_extent_is_known_but_takes_no_text() {
    let repo = repo_with(vec![
        bare_area("dot", 5, 5, 5, 5),
        bare_area("flat", 5, 5, 9, 5),
        bare_area("turned", 9, 9, 3, 12),
    ]);
    for name in ["dot", "flat", "turned"] {
        let name = name.to_string();
        assert_eq!(CaptionPosition::Insert(&name).resolve(&repo.formats[0], 300, 300), Ok(None));
        let mdl = request("Meme.Plain", empty_mdl_caption(), Some(vec![insert(&name, "text")]));
        assert!(plan_regions(&mdl, &repo.formats[0], 300, 300).unwrap().is_empty());
        assert!(is_renderable(&mdl, &repo.formats[0], u32::MAX, u32::MAX));
        let base = patterned(30, 20);
        let bytes = render(&mdl, &repo, base.clone(), &measure_blocks, &typeset_blocks).unwrap();
        assert_eq!(decode(&bytes), base);
    }
}

#[test]
fn inserts_that_map_nothing_fail_the_request() {
    let mut mdl = request("Meme.Plain", texts(Some("TOP"), None, None), None);
    mdl.inserts = Some(MdlInserts::Other);
    let repo = repo_with(vec![logo_area()]);
    let result = render(&mdl, &repo, transparent(300, 300), &measure_blocks, &typeset_blocks);
    assert_eq!(result, Err(RenderError::InsertsNotObject));
    assert_eq!(
        plan_regions(&mdl, &repo.formats[0], 300, 300).err(),
        Some(RenderError::InsertsNotObject)
    );
}

#[test]
fn insert_value_that_is_no_text_fails_the_request() {
    let not_text = MdlInsert { name: "logo".to_string(), text: None };
    let mdl = request("Meme.Plain", empty_mdl_caption(), Some(vec![not_text]));
    let repo = repo_with(vec![logo_area()]);
    let result = render(&mdl, &repo, transparent(30, 30), &measure_blocks, &typeset_blocks);
    assert_eq!(result, Err(RenderError::InsertNotText));
}

#[test]
fn first_fault_among_the_inserts_is_the_one_reported() {
    let repo = repo_with(vec![logo_area()]);
    let not_text = |name: &str| MdlInsert { name: name.to_string(), text: None };
    let unknown_first = request(
        "Meme.Plain",
        empty_mdl_caption(),
        Some(vec![insert("logo", "a"), insert("nose", "b"), not_text("logo")]),
    );
    assert_eq!(
        render(&unknown_first, &repo, transparent(9, 9), &measure_blocks, &typeset_blocks),
        Err(RenderError::UnknownInsert("nose".to_string()))
    );
    let no_text_first = request(
        "Meme.Plain",
        empty_mdl_caption(),
        Some(vec![not_text("logo"), insert("nose", "b")]),
    );
    assert_eq!(
        render(&no_text_first, &repo, transparent(9, 9), &measure_blocks, &typeset_blocks),
        Err(RenderError::InsertNotText)
    );
    let unknown_without_text = request("Meme.Plain", empty_mdl_caption(), Some(vec![not_text("nose")]));
    assert_eq!(
        render(&unknown_without_text, &repo, transparent(9, 9), &measure_blocks, &typeset_blocks),
        Err(RenderError::UnknownInsert("nose".to_string()))
    );
}

#[test]
fn loader_is_asked_once_for_the_path_of_the_format() {
    let mdl = request("Meme.Plain", texts(Some("T"), None, None), None);
    let repo = repo_with(vec![]);
    let asked = RefCell::new(Vec::new());
    let load = |path: String| {
        asked.borrow_mut().push(path);
        Ok(transparent(300, 300))
    };
    let direct = mdl_to_meme(&mdl, &repo, &load, &measure_blocks, &typeset_blocks).unwrap();
    assert_eq!(*asked.borrow(), vec!["plain.png".to_string()]);
    let expected =
        render_meme(&mdl, &repo.formats[0], transparent(300, 300), &measure_blocks, &typeset_blocks);
    assert_eq!(Ok(direct), expected);
}

#[test]
fn loader_is_not_asked_for_an_unknown_format() {
    let mdl = request("Meme.Missing", empty_mdl_caption(), None);
    let repo = repo_with(vec![]);
    let asked = RefCell::new(false);
    let load = |_: String| {
        *asked.borrow_mut() = true;
        Ok(transparent(3, 3))
    };
    let result = mdl_to_meme(&mdl, &repo, &load, &measure_blocks, &typeset_blocks);
    assert_eq!(result, Err(RenderError::UnknownFormat("Meme.Missing".to_string())));
    assert!(!*asked.borrow());
}

#[test]
fn image_that_cannot_be_loaded_fails_the_request() {
    let mdl = request("Meme.Plain", empty_mdl_caption(), Some(vec![insert("nose", "x")]));
    let repo = repo_with(vec![]);
    let load = |path: String| Err(format!("cannot open {}", path));
    let result = mdl_to_meme(&mdl, &repo, &load, &measure_blocks, &typeset_blocks);
    assert_eq!(result, Err(RenderError::ImageUnreadable("cannot open plain.png".to_string())));
}
