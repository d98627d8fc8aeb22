use ps2svg::convert;
use ps2svg::geom::Segment;
use ps2svg::scan::{scan, ScanError};

fn lines(v: &[&str]) -> Vec<Vec<u8>> {
    v.iter().map(|s| s.as_bytes().to_vec()).collect()
}

const M: i64 = 1_000_000;

#[test]
fn scenario_two_segments() {
    let input = lines(&["%%Note: start", "0.0 0.0 m", "1.0 0.0 l", "2.0 w", "0.0 1.0 l", "%%EOF"]);
    let segs = scan(&input).unwrap();
    assert_eq!(segs.len(), 2);
    assert_eq!(segs[0], Segment { x0: 0, y0: 0, x1: M, y1: 0, w: M });
    assert_eq!(segs[1], Segment { x0: M, y0: 0, x1: 0, y1: M, w: 2 * M });
}

#[test]
fn scenario_empty_active_region() {
    let input = lines(&["%%Note: start", "%%EOF"]);
    let segs = scan(&input).unwrap();
    assert_eq!(segs.len(), 0);
    let doc = convert(&input, 1000, false, false).unwrap();
    assert_eq!(
        doc,
        "<svg version=\"1.1\" baseProfile=\"full\" width=\"0.000000\" height=\"0.000000\" \
         xmlns=\"http://www.w3.org/2000/svg\">\n</svg>"
    );
}

#[test]
fn scenario_decimal_point_required() {
    // `1.000 2.500 m` is a move; `1 2 m` is silently ignored.
    let input = lines(&["%%Note:", "1.000 2.500 m", "0.0 0.0 l", "%%EOF"]);
    let segs = scan(&input).unwrap();
    assert_eq!(segs.len(), 1);
    assert_eq!(segs[0], Segment { x0: M, y0: 2_500_000, x1: 0, y1: 0, w: M });

    let input2 = lines(&["%%Note:", "1 2 m", "0.0 0.0 l", "%%EOF"]);
    let segs2 = scan(&input2).unwrap();
    assert_eq!(segs2.len(), 1);
    // The ignored move leaves the pen at the origin.
    assert_eq!(segs2[0], Segment { x0: 0, y0: 0, x1: 0, y1: 0, w: M });
}

#[test]
fn markers_guard_the_instructions() {
    // Valid instructions before the start marker and after the end
    // marker never produce segments.
    let input = lines(&[
        "1.0 1.0 m",
        "2.0 2.0 l",
        "%%Note:",
        "3.0 3.0 l",
        "%%EOF",
        "4.0 4.0 l",
        "%%Note:",
        "5.0 5.0 l",
    ]);
    let segs = scan(&input).unwrap();
    assert_eq!(segs.len(), 1);
    assert_eq!(segs[0], Segment { x0: 0, y0: 0, x1: 3 * M, y1: 3 * M, w: M });
}

#[test]
fn no_start_marker_no_segments() {
    let input = lines(&["0.0 0.0 m", "1.0 1.0 l", "2.0 2.0 l"]);
    let segs = scan(&input).unwrap();
    assert_eq!(segs.len(), 0);
}

#[test]
fn width_applies_only_forward() {
    let input = lines(&[
        "%%Note:",
        "0.5 w",
        "1.0 0.0 l",
        "3.5 w",
        "1.0 1.0 l",
        "2.0 2.0 l",
        "%%EOF",
    ]);
    let segs = scan(&input).unwrap();
    assert_eq!(segs.len(), 3);
    assert_eq!(segs[0].w, 500_000);
    assert_eq!(segs[1].w, 3_500_000);
    assert_eq!(segs[2].w, 3_500_000);
}

#[test]
fn segment_count_ignores_moves_and_widths() {
    let input = lines(&[
        "%%Note:",
        "1.0 1.0 m",
        "2.0 2.0 m",
        "0.1 w",
        "3.0 3.0 l",
        "junk in the region",
        "4.0 4.0 m",
        "5.0 5.0 l",
        "%%EOF",
    ]);
    let segs = scan(&input).unwrap();
    assert_eq!(segs.len(), 2);
}

#[test]
fn whitespace_is_normalized() {
    let input = lines(&["%%Note:", "   1.0\t\t 2.0    l  ", "%%EOF"]);
    let segs = scan(&input).unwrap();
    assert_eq!(segs.len(), 1);
    assert_eq!(segs[0], Segment { x0: 0, y0: 0, x1: M, y1: 2 * M, w: M });
}

#[test]
fn negative_width_is_ignored() {
    let input = lines(&["%%Note:", "-2.0 w", "1.0 1.0 l", "%%EOF"]);
    let segs = scan(&input).unwrap();
    assert_eq!(segs.len(), 1);
    assert_eq!(segs[0].w, M);
}

#[test]
fn oversized_operand_is_fatal() {
    let input = lines(&["%%Note:", "99999999999999.0 0.0 l", "%%EOF"]);
    assert_eq!(scan(&input), Err(ScanError::NumberTooLarge));
    // The same number outside the active region is never looked at.
    let input2 = lines(&["99999999999999.0 0.0 l", "%%Note:", "%%EOF"]);
    assert!(scan(&input2).is_ok());
}

#[test]
fn document_text_is_exact() {
    let input = lines(&["%%Note: start", "0.0 0.0 m", "1.0 0.0 l", "2.0 w", "0.0 1.0 l", "%%EOF"]);
    let doc = convert(&input, 100, false, false).unwrap();
    assert_eq!(
        doc,
        "<svg version=\"1.1\" baseProfile=\"full\" width=\"100.000000\" height=\"100.000000\" \
         xmlns=\"http://www.w3.org/2000/svg\">\n  <line x1=\"0.000000\" y1=\"0.000000\" \
         x2=\"100.000000\" y2=\"0.000000\" stroke=\"black\" stroke-width=\"1.000000\" />\n  \
         <line x1=\"100.000000\" y1=\"0.000000\" x2=\"0.000000\" y2=\"100.000000\" \
         stroke=\"black\" stroke-width=\"2.000000\" />\n</svg>"
    );
}

#[test]
fn document_with_x_reversal() {
    let input = lines(&["%%Note: start", "0.0 0.0 m", "1.0 0.0 l", "2.0 w", "0.0 1.0 l", "%%EOF"]);
    let doc = convert(&input, 100, true, false).unwrap();
    assert_eq!(
        doc,
        "<svg version=\"1.1\" baseProfile=\"full\" width=\"100.000000\" height=\"100.000000\" \
         xmlns=\"http://www.w3.org/2000/svg\">\n  <line x1=\"100.000000\" y1=\"0.000000\" \
         x2=\"0.000000\" y2=\"0.000000\" stroke=\"black\" stroke-width=\"1.000000\" />\n  \
         <line x1=\"0.000000\" y1=\"0.000000\" x2=\"100.000000\" y2=\"100.000000\" \
         stroke=\"black\" stroke-width=\"2.000000\" />\n</svg>"
    );
}

#[test]
fn degenerate_extent_gives_empty_document() {
    // All endpoints coincide: no scale is defined, so the policy is
    // the empty document.
    let input = lines(&["%%Note:", "1.0 1.0 m", "1.0 1.0 l", "%%EOF"]);
    let doc = convert(&input, 1000, false, false).unwrap();
    assert_eq!(
        doc,
        "<svg version=\"1.1\" baseProfile=\"full\" width=\"0.000000\" height=\"0.000000\" \
         xmlns=\"http://www.w3.org/2000/svg\">\n</svg>"
    );
}

#[test]
fn eof_before_start_marker_is_ignored() {
    // The end marker counts only inside the active region.
    let input = lines(&["%%EOF", "%%Note:", "1.0 1.0 l", "%%EOF", "2.0 2.0 l"]);
    let segs = scan(&input).unwrap();
    assert_eq!(segs.len(), 1);
    assert_eq!(segs[0], Segment { x0: 0, y0: 0, x1: M, y1: M, w: M });
}

#[test]
fn moves_emit_nothing() {
    let input = lines(&["%%Note:", "1.0 1.0 m", "2.0 2.0 m", "3.0 3.0 m", "%%EOF"]);
    let segs = scan(&input).unwrap();
    assert_eq!(segs.len(), 0);
}

#[test]
fn negative_coordinates_are_translated_to_the_origin() {
    let input = lines(&["%%Note:", "-1.0 -1.0 m", "1.0 0.0 l", "%%EOF"]);
    let doc = convert(&input, 100, false, false).unwrap();
    // Window x in [-1, 1], y in [-1, 0]: the larger extent (2 units)
    // maps onto 100 pixels, so the segment runs from (0, 0) to
    // (100, 50).
    assert_eq!(
        doc,
        "<svg version=\"1.1\" baseProfile=\"full\" width=\"100.000000\" height=\"50.000000\" \
         xmlns=\"http://www.w3.org/2000/svg\">\n  <line x1=\"0.000000\" y1=\"0.000000\" \
         x2=\"100.000000\" y2=\"50.000000\" stroke=\"black\" stroke-width=\"1.000000\" />\n</svg>"
    );
}

#[test]
fn restart_marker_inside_region_is_skipped() {
    // A second start marker while active is skipped, not parsed.
    let input = lines(&["%%Note:", "%%Note: 1.0 1.0 l", "2.0 2.0 l", "%%EOF"]);
    let segs = scan(&input).unwrap();
    assert_eq!(segs.len(), 1);
    assert_eq!(segs[0], Segment { x0: 0, y0: 0, x1: 2 * M, y1: 2 * M, w: M });
}
