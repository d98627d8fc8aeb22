//! The bounding box of a segment list: minimum and maximum of all four
//! endpoint coordinates across every segment.

use vstd::prelude::*;
use crate::geom::{Segment, SegModel};
use crate::scan::segs_view;

verus! {

pub struct BBoxModel {
    pub min_x: int,
    pub max_x: int,
    pub min_y: int,
    pub max_y: int,
}

/// Extents of the collected geometry, in micro-units.
#[derive(Clone, Copy, PartialEq, Eq, Structural, Debug)]
pub struct BBox {
    pub min_x: i64,
    pub max_x: i64,
    pub min_y: i64,
    pub max_y: i64,
}

impl View for BBox {
    type V = BBoxModel;

    open spec fn view(&self) -> BBoxModel {
        BBoxModel {
            min_x: self.min_x as int,
            max_x: self.max_x as int,
            min_y: self.min_y as int,
            max_y: self.max_y as int,
        }
    }
}

pub open spec fn min2(a: int, b: int) -> int {
    if a < b {
        a
    } else {
        b
    }
}

pub open spec fn max2(a: int, b: int) -> int {
    if a > b {
        a
    } else {
        b
    }
}

pub open spec fn bb_of_seg(s: SegModel) -> BBoxModel {
    BBoxModel {
        min_x: min2(s.x0, s.x1),
        max_x: max2(s.x0, s.x1),
        min_y: min2(s.y0, s.y1),
        max_y: max2(s.y0, s.y1),
    }
}

pub open spec fn bb_join(a: BBoxModel, b: BBoxModel) -> BBoxModel {
    BBoxModel {
        min_x: min2(a.min_x, b.min_x),
        max_x: max2(a.max_x, b.max_x),
        min_y: min2(a.min_y, b.min_y),
        max_y: max2(a.max_y, b.max_y),
    }
}

/// The fold of all segments' extents; meaningful only for a non-empty
/// list.
pub open spec fn bbox_spec(segs: Seq<SegModel>) -> BBoxModel
    recommends
        segs.len() > 0,
    decreases segs.len(),
{
    if segs.len() <= 1 {
        bb_of_seg(segs[0])
    } else {
        bb_join(bbox_spec(segs.drop_last()), bb_of_seg(segs.last()))
    }
}

/// A segment's endpoints lie inside a box.
pub open spec fn seg_in_bbox(s: SegModel, bb: BBoxModel) -> bool {
    &&& bb.min_x <= s.x0 <= bb.max_x
    &&& bb.min_x <= s.x1 <= bb.max_x
    &&& bb.min_y <= s.y0 <= bb.max_y
    &&& bb.min_y <= s.y1 <= bb.max_y
}

/// Every segment lies inside the bounding box of its list.
pub proof fn lemma_bbox_contains(segs: Seq<SegModel>, i: int)
    requires
        0 <= i < segs.len(),
    ensures
        seg_in_bbox(segs[i], bbox_spec(segs)),
    decreases segs.len(),
{
    if segs.len() > 1 && i < segs.len() - 1 {
        lemma_bbox_contains(segs.drop_last(), i);
    }
}

/// A bounding box is ordered: each minimum is at most its maximum.
pub proof fn lemma_bbox_ordered(segs: Seq<SegModel>)
    requires
        segs.len() > 0,
    ensures
        bbox_spec(segs).min_x <= bbox_spec(segs).max_x,
        bbox_spec(segs).min_y <= bbox_spec(segs).max_y,
{
    lemma_bbox_contains(segs, 0);
}

/// Folds the minimum and maximum extents over all segments; `None`
/// exactly on an empty list.
pub fn bounding_box(segs: &Vec<Segment>) -> (r: Option<BBox>)
    ensures
        (r is Some) <==> segs@.len() > 0,
        r matches Some(bb) ==> bb@ == bbox_spec(segs_view(segs@)),
{
    let ghost sv = segs_view(segs@);
    if segs.len() == 0 {
        return None;
    }
    let s0 = segs[0];
    let mut bb = BBox {
        min_x: if s0.x0 < s0.x1 { s0.x0 } else { s0.x1 },
        max_x: if s0.x0 > s0.x1 { s0.x0 } else { s0.x1 },
        min_y: if s0.y0 < s0.y1 { s0.y0 } else { s0.y1 },
        max_y: if s0.y0 > s0.y1 { s0.y0 } else { s0.y1 },
    };
    proof {
        assert(sv.take(1) =~= seq![sv[0]]);
        assert(sv[0] == segs@[0]@);
    }
    for i in 1..segs.len()
        invariant
            1 <= i <= segs@.len(),
            sv == segs_view(segs@),
            sv.len() == segs@.len(),
            bb@ == bbox_spec(sv.take(i as int)),
    {
        proof {
            assert(sv.take(i + 1).drop_last() =~= sv.take(i as int));
            assert(sv.take(i + 1).last() == sv[i as int]);
            assert(sv[i as int] == segs@[i as int]@);
        }
        let s = segs[i];
        let lo_x = if s.x0 < s.x1 { s.x0 } else { s.x1 };
        let hi_x = if s.x0 > s.x1 { s.x0 } else { s.x1 };
        let lo_y = if s.y0 < s.y1 { s.y0 } else { s.y1 };
        let hi_y = if s.y0 > s.y1 { s.y0 } else { s.y1 };
        bb = BBox {
            min_x: if lo_x < bb.min_x { lo_x } else { bb.min_x },
            max_x: if hi_x > bb.max_x { hi_x } else { bb.max_x },
            min_y: if lo_y < bb.min_y { lo_y } else { bb.min_y },
            max_y: if hi_y > bb.max_y { hi_y } else { bb.max_y },
        };
    }
    proof {
        assert(sv.take(sv.len() as int) =~= sv);
    }
    Some(bb)
}

} // verus!
