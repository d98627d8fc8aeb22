//! The normalizing transform: translate the geometry to the origin,
//! scale it uniformly so that the larger extent maps onto the target
//! size, and optionally mirror either axis across the canvas centre.
//!
//! Scaled coordinates are kept exact, as rational numerators over the
//! common denominator `den` (the larger source extent): the coordinate
//! `x` maps to the pixel value `(x - min_x) * size / den`.

use vstd::prelude::*;
use crate::geom::{Segment, SegModel};
use crate::bbox::{BBox, max2};

verus! {

pub struct PlanModel {
    pub min_x: int,
    pub min_y: int,
    pub ext_x: int,
    pub ext_y: int,
    pub den: int,
    pub size: int,
    pub rev_x: bool,
    pub rev_y: bool,
}

/// Everything the per-segment transform needs: the source window, the
/// common denominator, the target size and the mirror configuration.
#[derive(Clone, Copy, PartialEq, Eq, Structural, Debug)]
pub struct Plan {
    pub min_x: i64,
    pub min_y: i64,
    pub ext_x: i128,
    pub ext_y: i128,
    pub den: i128,
    pub size: u32,
    pub rev_x: bool,
    pub rev_y: bool,
}

impl View for Plan {
    type V = PlanModel;

    open spec fn view(&self) -> PlanModel {
        PlanModel {
            min_x: self.min_x as int,
            min_y: self.min_y as int,
            ext_x: self.ext_x as int,
            ext_y: self.ext_y as int,
            den: self.den as int,
            size: self.size as int,
            rev_x: self.rev_x,
            rev_y: self.rev_y,
        }
    }
}

/// A well-formed plan: extents are the source window sizes, the
/// denominator is the larger of the two and positive.
pub open spec fn plan_wf(p: PlanModel) -> bool {
    &&& 0 <= p.ext_x <= 0x10000000000000000
    &&& 0 <= p.ext_y <= 0x10000000000000000
    &&& p.den == max2(p.ext_x, p.ext_y)
    &&& 1 <= p.den
    &&& 0 <= p.size < 0x100000000
}

/// Canvas width as a rational numerator over `p.den`.
pub open spec fn width_num(p: PlanModel) -> int {
    p.ext_x * p.size
}

/// Canvas height as a rational numerator over `p.den`.
pub open spec fn height_num(p: PlanModel) -> int {
    p.ext_y * p.size
}

/// Builds the plan from a bounding box; `None` exactly when both
/// extents are zero, the degenerate geometry with no defined scale.
pub fn plan(bb: &BBox, size: u32, rev_x: bool, rev_y: bool) -> (r: Option<Plan>)
    requires
        bb@.min_x <= bb@.max_x,
        bb@.min_y <= bb@.max_y,
    ensures
        (r is Some) <==> (bb@.max_x > bb@.min_x || bb@.max_y > bb@.min_y),
        r matches Some(p) ==> {
            &&& p@ == (PlanModel {
                min_x: bb@.min_x,
                min_y: bb@.min_y,
                ext_x: bb@.max_x - bb@.min_x,
                ext_y: bb@.max_y - bb@.min_y,
                den: max2(bb@.max_x - bb@.min_x, bb@.max_y - bb@.min_y),
                size: size as int,
                rev_x,
                rev_y,
            })
            &&& plan_wf(p@)
        },
{
    let ext_x: i128 = bb.max_x as i128 - bb.min_x as i128;
    let ext_y: i128 = bb.max_y as i128 - bb.min_y as i128;
    let den: i128 = if ext_x > ext_y { ext_x } else { ext_y };
    if den == 0 {
        return None;
    }
    Some(Plan { min_x: bb.min_x, min_y: bb.min_y, ext_x, ext_y, den, size, rev_x, rev_y })
}

/// Mirroring across the canvas centre line of extent `m`.
pub open spec fn rev_spec(x: int, m: int) -> int {
    m - x
}

/// Mirrors a coordinate across the centre of an axis of extent `m`.
pub fn rev(x: i128, m: i128) -> (r: i128)
    requires
        i128::MIN <= m - x <= i128::MAX,
    ensures
        r == rev_spec(x as int, m as int),
{
    m - x
}

/// Mirroring an axis twice returns every coordinate to its original
/// value: `rev` is an involution.
pub proof fn lemma_rev_involution(x: int, m: int)
    ensures
        rev_spec(rev_spec(x, m), m) == x,
{
}

/// Scaling is uniform: the transformed canvas keeps the source aspect
/// ratio exactly, as the cross product of the two rationals
/// `width_num/den` and `height_num/den` against `ext_x` and `ext_y`.
pub proof fn lemma_aspect_ratio(p: PlanModel)
    requires
        plan_wf(p),
    ensures
        width_num(p) * p.ext_y == height_num(p) * p.ext_x,
{
    assert((p.ext_x * p.size) * p.ext_y == (p.ext_y * p.size) * p.ext_x) by (nonlinear_arith);
}

pub struct OutSegModel {
    pub x0: int,
    pub y0: int,
    pub x1: int,
    pub y1: int,
    pub w: int,
}

/// A transformed segment: pixel coordinates as rational numerators
/// over the plan's denominator, stroke width unchanged.
#[derive(Clone, Copy, PartialEq, Eq, Structural, Debug)]
pub struct OutSeg {
    pub x0: i128,
    pub y0: i128,
    pub x1: i128,
    pub y1: i128,
    pub w: i64,
}

impl View for OutSeg {
    type V = OutSegModel;

    open spec fn view(&self) -> OutSegModel {
        OutSegModel {
            x0: self.x0 as int,
            y0: self.y0 as int,
            x1: self.x1 as int,
            y1: self.y1 as int,
            w: self.w as int,
        }
    }
}

/// One x coordinate transformed: translated, scaled, optionally
/// mirrored.
pub open spec fn spec_transform_x(p: PlanModel, v: int) -> int {
    let t = (v - p.min_x) * p.size;
    if p.rev_x {
        rev_spec(t, width_num(p))
    } else {
        t
    }
}

pub open spec fn spec_transform_y(p: PlanModel, v: int) -> int {
    let t = (v - p.min_y) * p.size;
    if p.rev_y {
        rev_spec(t, height_num(p))
    } else {
        t
    }
}

/// The whole segment transformed; purely a function of plan and
/// segment, applied independently per segment.
pub open spec fn spec_transform_seg(p: PlanModel, s: SegModel) -> OutSegModel {
    OutSegModel {
        x0: spec_transform_x(p, s.x0),
        y0: spec_transform_y(p, s.y0),
        x1: spec_transform_x(p, s.x1),
        y1: spec_transform_y(p, s.y1),
        w: s.w,
    }
}

/// The segment lies inside the plan's source window.
pub open spec fn seg_in_window(p: PlanModel, s: SegModel) -> bool {
    &&& p.min_x <= s.x0 <= p.min_x + p.ext_x
    &&& p.min_x <= s.x1 <= p.min_x + p.ext_x
    &&& p.min_y <= s.y0 <= p.min_y + p.ext_y
    &&& p.min_y <= s.y1 <= p.min_y + p.ext_y
}

proof fn lemma_tx_bounds(d: int, ext: int, den: int, size: int)
    requires
        0 <= d <= ext <= den,
        0 <= size < 0x100000000,
        den <= 0x10000000000000000,
    ensures
        0 <= d * size <= ext * size <= den * size,
        den * size <= 0x1000000000000000000000000,
{
    assert(0 <= d * size <= ext * size <= den * size
        && den * size <= 0x1000000000000000000000000) by (nonlinear_arith)
        requires
            0 <= d <= ext <= den,
            0 <= size < 0x100000000,
            den <= 0x10000000000000000,
    ;
}

/// Transforms one segment exactly.
pub fn transform_segment(p: &Plan, s: &Segment) -> (r: OutSeg)
    requires
        plan_wf(p@),
        seg_in_window(p@, s@),
    ensures
        r@ == spec_transform_seg(p@, s@),
{
    proof {
        lemma_tx_bounds(s@.x0 - p@.min_x, p@.ext_x, p@.den, p@.size);
        lemma_tx_bounds(s@.x1 - p@.min_x, p@.ext_x, p@.den, p@.size);
        lemma_tx_bounds(s@.y0 - p@.min_y, p@.ext_y, p@.den, p@.size);
        lemma_tx_bounds(s@.y1 - p@.min_y, p@.ext_y, p@.den, p@.size);
        lemma_tx_bounds(p@.ext_x, p@.ext_x, p@.den, p@.size);
        lemma_tx_bounds(p@.ext_y, p@.ext_y, p@.den, p@.size);
    }
    let sz = p.size as i128;
    let mut x0 = (s.x0 as i128 - p.min_x as i128) * sz;
    let mut y0 = (s.y0 as i128 - p.min_y as i128) * sz;
    let mut x1 = (s.x1 as i128 - p.min_x as i128) * sz;
    let mut y1 = (s.y1 as i128 - p.min_y as i128) * sz;
    if p.rev_x {
        let wn = p.ext_x * sz;
        x0 = rev(x0, wn);
        x1 = rev(x1, wn);
    }
    if p.rev_y {
        let hn = p.ext_y * sz;
        y0 = rev(y0, hn);
        y1 = rev(y1, hn);
    }
    OutSeg { x0, y0, x1, y1, w: s.w }
}

/// Without reversal every transformed coordinate lies inside the
/// canvas: the numerator sits in `[0, size * den]`, that is, the pixel
/// value `numerator / den` sits in `[0, size]`.
pub proof fn lemma_transform_in_canvas(p: PlanModel, s: SegModel)
    requires
        plan_wf(p),
        seg_in_window(p, s),
        !p.rev_x,
        !p.rev_y,
    ensures
        0 <= spec_transform_seg(p, s).x0 <= p.size * p.den,
        0 <= spec_transform_seg(p, s).x1 <= p.size * p.den,
        0 <= spec_transform_seg(p, s).y0 <= p.size * p.den,
        0 <= spec_transform_seg(p, s).y1 <= p.size * p.den,
{
    lemma_tx_bounds(s.x0 - p.min_x, p.ext_x, p.den, p.size);
    lemma_tx_bounds(s.x1 - p.min_x, p.ext_x, p.den, p.size);
    lemma_tx_bounds(s.y0 - p.min_y, p.ext_y, p.den, p.size);
    lemma_tx_bounds(s.y1 - p.min_y, p.ext_y, p.den, p.size);
    assert(p.den * p.size == p.size * p.den) by (nonlinear_arith);
}

/// Mirrored coordinates stay inside the canvas as well.
pub proof fn lemma_transform_in_canvas_rev(p: PlanModel, s: SegModel)
    requires
        plan_wf(p),
        seg_in_window(p, s),
    ensures
        0 <= spec_transform_seg(p, s).x0 <= p.size * p.den,
        0 <= spec_transform_seg(p, s).x1 <= p.size * p.den,
        0 <= spec_transform_seg(p, s).y0 <= p.size * p.den,
        0 <= spec_transform_seg(p, s).y1 <= p.size * p.den,
{
    lemma_tx_bounds(s.x0 - p.min_x, p.ext_x, p.den, p.size);
    lemma_tx_bounds(s.x1 - p.min_x, p.ext_x, p.den, p.size);
    lemma_tx_bounds(s.y0 - p.min_y, p.ext_y, p.den, p.size);
    lemma_tx_bounds(s.y1 - p.min_y, p.ext_y, p.den, p.size);
    lemma_tx_bounds(p.ext_x, p.ext_x, p.den, p.size);
    lemma_tx_bounds(p.ext_y, p.ext_y, p.den, p.size);
    assert(p.den * p.size == p.size * p.den) by (nonlinear_arith);
}

} // verus!
