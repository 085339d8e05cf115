use pluvia::render::color::{parse_color_text, ColorText};
use pluvia::render::hit_mask::{AlphaHitMask, PixelRect};
use pluvia::render::pango_text::{TextAlign, TextCase, TextStyle};

#[test]
fn test_pango_text_alignment_case_and_styling() {
    assert_eq!(TextAlign::parse("Left"), TextAlign::Left);
    assert_eq!(TextAlign::parse("Center"), TextAlign::Center);
    assert_eq!(TextAlign::parse("Right"), TextAlign::Right);
    assert_eq!(TextAlign::parse("CenterCenter"), TextAlign::Center);

    assert_eq!(TextCase::Upper.apply("hello world"), "HELLO WORLD");
    assert_eq!(TextCase::Lower.apply("HELLO WORLD"), "hello world");
    assert_eq!(TextCase::Proper.apply("hello world"), "Hello World");

    assert_eq!(TextStyle::parse("Bold"), TextStyle::Bold);
    assert_eq!(TextStyle::parse("Italic"), TextStyle::Italic);
    assert_eq!(TextStyle::parse("BoldItalic"), TextStyle::BoldItalic);
    assert_eq!(TextStyle::parse("Normal"), TextStyle::Normal);
}

#[test]
fn hit_mask_starts_empty_and_reports_solid_pixels() {
    let mut mask = AlphaHitMask::new(4, 3);
    assert!(mask.is_empty());
    assert!(!mask.contains(1, 1));
    mask.pixels[1 * 4 + 2] = 1;
    assert!(!mask.is_empty());
    assert!(mask.contains(2, 1));
    assert!(!mask.contains(1, 2));
    assert!(!mask.contains(-1, 0));
    assert!(!mask.contains(4, 0));
    assert!(!mask.contains(0, 3));
}

#[test]
fn text_case_proper_lowercases_rest_of_word() {
    assert_eq!(TextCase::Proper.apply("hELLO wORLD-x9y"), "Hello World-X9y");
    assert_eq!(TextCase::parse("UPPER"), TextCase::Upper);
    assert_eq!(TextCase::parse("nothing"), TextCase::NoChange);
    assert_eq!(TextCase::NoChange.apply("MiXeD"), "MiXeD");
}

#[test]
fn test_alpha_hit_mask_bounding_rectangles_extraction() {
    // Two solid boxes on a transparent 200x200 surface: (10, 10, 40x30)
    // and (100, 120, 50x40), as pixel spans.
    let mask = AlphaHitMask::from_rectangles(200, 200, &vec![(10, 10, 50, 40), (100, 120, 150, 160)]);
    assert!(mask.contains(15, 15));
    assert!(mask.contains(110, 130));
    assert!(!mask.contains(70, 70));
    assert!(!mask.contains(0, 0));

    let rects = mask.to_rectangles();
    assert!(!rects.is_empty());

    // Hit test every extracted rectangle to ensure they only cover active pixels
    for r in &rects {
        let cx = (r.x + r.width / 2) as i32;
        let cy = (r.y + r.height / 2) as i32;
        assert!(mask.contains(cx, cy), "Extracted rectangle at ({}, {}) was not in hit mask", cx, cy);
    }
    let area: u32 = rects.iter().map(|r| r.width * r.height).sum();
    assert_eq!(area, 40 * 30 + 50 * 40);
}

#[test]
fn hit_mask_spans_are_clipped_to_the_mask() {
    let mut mask = AlphaHitMask::new(10, 5);
    mask.add_rect(8, 3, 100, 100);
    assert!(mask.contains(9, 4));
    assert!(mask.contains(8, 3));
    assert!(!mask.contains(7, 3));
    assert!(!mask.contains(10, 4));
    assert_eq!(mask.pixels.iter().filter(|p| **p != 0).count(), 4);
    mask.add_rect(5, 5, 2, 2);
    assert_eq!(mask.pixels.iter().filter(|p| **p != 0).count(), 4);
}

#[test]
fn colour_options_read_hex_and_decimal_forms() {
    assert_eq!(parse_color_text("#FF8000"), ColorText::Hex(255, 128, 0, 255));
    assert_eq!(parse_color_text(" #ff800080 "), ColorText::Hex(255, 128, 0, 128));
    assert_eq!(parse_color_text("#+F+F+F"), ColorText::Hex(15, 15, 15, 255));
    assert_eq!(parse_color_text("#GG0000"), ColorText::Invalid);
    assert_eq!(parse_color_text("#12345"), ColorText::Invalid);
    assert_eq!(parse_color_text(""), ColorText::Invalid);
    assert_eq!(
        parse_color_text(" 255, 128 ,0 "),
        ColorText::Decimal(vec!["255".to_string(), "128".to_string(), "0".to_string()])
    );
    assert_eq!(
        parse_color_text("1,2,3,4"),
        ColorText::Decimal(vec!["1".to_string(), "2".to_string(), "3".to_string(), "4".to_string()])
    );
    assert_eq!(parse_color_text("1,2"), ColorText::Invalid);
    assert_eq!(parse_color_text("1,2,3,4,5"), ColorText::Invalid);
}

/// Every solid pixel lies in exactly one rectangle and no rectangle holds a
/// transparent pixel.
fn assert_exact_cover(mask: &AlphaHitMask, rects: &[PixelRect]) {
    for y in 0..mask.height {
        for x in 0..mask.width {
            let n = rects
                .iter()
                .filter(|r| r.x <= x && x < r.x + r.width && r.y <= y && y < r.y + r.height)
                .count();
            if mask.contains(x as i32, y as i32) {
                assert_eq!(n, 1, "pixel ({}, {})", x, y);
            } else {
                assert_eq!(n, 0, "pixel ({}, {})", x, y);
            }
        }
    }
}

#[test]
fn rectangles_are_fewer_than_row_runs_where_runs_do_not_stack() {
    // Rows solid over [0,2), [0,1), [0,2), [0,1): stacked row runs need
    // four rectangles, but the left column and two single pixels need three.
    let mask = AlphaHitMask::from_rectangles(2, 4, &vec![(0, 0, 1, 4), (1, 0, 2, 1), (1, 2, 2, 3)]);
    assert_eq!(mask.row_run_rectangles().len(), 4);
    let rects = mask.to_rectangles();
    assert_eq!(rects.len(), 3);
    assert_exact_cover(&mask, &rects);
}

#[test]
fn rectangles_keep_row_runs_when_they_are_shortest() {
    let mask = AlphaHitMask::from_rectangles(200, 200, &vec![(10, 10, 50, 40), (100, 120, 150, 160)]);
    let rects = mask.to_rectangles();
    assert_eq!(
        rects,
        vec![
            PixelRect { x: 10, y: 10, width: 40, height: 30 },
            PixelRect { x: 100, y: 120, width: 50, height: 40 }
        ]
    );
    assert_exact_cover(&mask, &rects);
}

#[test]
fn rectangles_of_a_cross_and_of_nothing() {
    // A plus sign: three rectangles at best.
    let mask = AlphaHitMask::from_rectangles(3, 3, &vec![(1, 0, 2, 3), (0, 1, 3, 2)]);
    let rects = mask.to_rectangles();
    assert_eq!(rects.len(), 3);
    assert_exact_cover(&mask, &rects);
    assert!(AlphaHitMask::new(4, 4).to_rectangles().is_empty());
    assert!(AlphaHitMask::new(0, 7).to_rectangles().is_empty());
}

#[test]
fn rectangles_of_two_offset_boxes_are_the_two_boxes() {
    // Side by side, overlapping in rows only: row runs give three stacks,
    // the two boxes are enough.
    let mask = AlphaHitMask::from_rectangles(200, 80, &vec![(0, 0, 60, 30), (60, 10, 140, 50)]);
    assert_eq!(mask.row_run_rectangles().len(), 3);
    let rects = mask.to_rectangles();
    assert_eq!(rects.len(), 2);
    assert_exact_cover(&mask, &rects);
}
