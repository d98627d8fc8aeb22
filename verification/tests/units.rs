use ps2svg::bbox::{bounding_box, BBox};
use ps2svg::decimal::{parse_decimal, Parsed};
use ps2svg::emit::{push_dec, push_micro};
use ps2svg::geom::{Point, Segment};
use ps2svg::transform::{plan, rev, transform_segment, OutSeg};

#[test]
fn parse_plain_decimals() {
    assert!(matches!(parse_decimal(b"0.0"), Parsed::Value(0)));
    assert!(matches!(parse_decimal(b"1.5"), Parsed::Value(1_500_000)));
    assert!(matches!(parse_decimal(b"-12.5"), Parsed::Value(-12_500_000)));
    assert!(matches!(parse_decimal(b"3.000001"), Parsed::Value(3_000_001)));
    assert!(matches!(parse_decimal(b"007.250"), Parsed::Value(7_250_000)));
}

#[test]
fn parse_truncates_beyond_six_fraction_digits() {
    assert!(matches!(parse_decimal(b"1.2345678"), Parsed::Value(1_234_567)));
    assert!(matches!(parse_decimal(b"-0.9999999"), Parsed::Value(-999_999)));
}

#[test]
fn parse_rejects_wrong_shapes() {
    for t in [
        "", "12", "-12", "1.", ".5", "-.5", "1.2.3", "+1.0", "1,0", "1.0x", "x1.0", "- 1.0",
        "1e3", "--1.0",
    ] {
        assert!(matches!(parse_decimal(t.as_bytes()), Parsed::NotDecimal), "{t}");
    }
}

#[test]
fn parse_reports_out_of_range() {
    // Just above the largest representable magnitude.
    assert!(matches!(parse_decimal(b"9223372036854.775808"), Parsed::TooLarge));
    assert!(matches!(parse_decimal(b"9223372036854.775807"), Parsed::Value(9223372036854775807)));
    assert!(matches!(parse_decimal(b"99999999999999999999999999.0"), Parsed::TooLarge));
}

#[test]
fn pen_tracks_position_and_width() {
    let mut pen = Point::new();
    assert_eq!((pen.x, pen.y, pen.w), (0, 0, 1_000_000));
    pen.moveto(3, 4);
    assert_eq!((pen.x, pen.y, pen.w), (3, 4, 1_000_000));
    pen.set_width(77);
    let seg = pen.lineto(10, 20);
    assert_eq!(seg, Segment { x0: 3, y0: 4, x1: 10, y1: 20, w: 77 });
    assert_eq!((pen.x, pen.y, pen.w), (10, 20, 77));
}

#[test]
fn bounding_box_folds_every_endpoint() {
    assert!(bounding_box(&vec![]).is_none());
    let segs = vec![
        Segment { x0: 5, y0: -2, x1: -7, y1: 3, w: 1 },
        Segment { x0: 0, y0: 9, x1: 2, y1: 1, w: 1 },
    ];
    let bb = bounding_box(&segs).unwrap();
    assert_eq!(bb, BBox { min_x: -7, max_x: 5, min_y: -2, max_y: 9 });
}

#[test]
fn reversal_is_an_involution() {
    for (x, m) in [(0i128, 10i128), (3, 10), (10, 10), (-4, 7), (123456, 1)] {
        assert_eq!(rev(rev(x, m), m), x);
    }
}

#[test]
fn transform_maps_window_onto_canvas() {
    // Window x in [0, 2], y in [0, 1] units; size 1000.
    let segs = vec![Segment {
        x0: 0,
        y0: 0,
        x1: 2_000_000,
        y1: 1_000_000,
        w: 1_000_000,
    }];
    let bb = bounding_box(&segs).unwrap();
    let p = plan(&bb, 1000, false, false).unwrap();
    assert_eq!(p.den, 2_000_000);
    let o = transform_segment(&p, &segs[0]);
    // Numerators over den: value / den is the pixel coordinate.
    assert_eq!(o.x0 / p.den, 0);
    assert_eq!(o.x1 / p.den, 1000);
    assert_eq!(o.y1 / p.den, 500);
    assert_eq!(o, OutSeg {
        x0: 0,
        y0: 0,
        x1: 2_000_000_000,
        y1: 1_000_000_000,
        w: 1_000_000,
    });
}

#[test]
fn degenerate_window_has_no_plan() {
    let bb = BBox { min_x: 4, max_x: 4, min_y: -1, max_y: -1 };
    assert!(plan(&bb, 1000, false, false).is_none());
}

#[test]
fn decimal_formatting_is_exact() {
    let mut s = String::new();
    push_dec(&mut s, 0);
    push_dec(&mut s, 9);
    push_dec(&mut s, 1234567890);
    assert_eq!(s, "091234567890");
    let mut t = String::new();
    push_micro(&mut t, 1_500_000);
    push_micro(&mut t, 42);
    push_micro(&mut t, 0);
    assert_eq!(t, "1.5000000.0000420.000000");
}
