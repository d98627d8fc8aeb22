//! Converter for a restricted subset of PostScript-like plotter dumps
//! (move-to, line-to, set-line-width) into an SVG document.
//!
//! Coordinates are exact fixed-point numbers counted in millionths
//! (micro-units), so every stage of the pipeline is verified exactly:
//! text scanning, pen state, bounding box, normalizing transform and
//! document emission.  Coordinates are used exactly as parsed; the
//! translation to the origin is the only offset ever applied.  Inputs
//! with no segments, or with every endpoint coincident, produce the
//! empty document with a zero canvas rather than an undefined scale.

use vstd::prelude::*;

pub mod decimal;
pub mod bbox;
pub mod emit;
pub mod geom;
pub mod scan;
pub mod transform;

verus! {

use crate::bbox::{BBoxModel, bbox_spec, bounding_box, lemma_bbox_contains, lemma_bbox_ordered, max2};
use crate::emit::{
    document_str, emit_document, empty_document_str, out_seg_printable, out_segs_view,
};
use crate::geom::SegModel;
use crate::scan::{
    ScanError, init_scan, lemma_scan_widths, lines_view, scan, scan_spec, segs_view, widths_ok,
};
use crate::transform::{
    OutSeg, OutSegModel, Plan, PlanModel, height_num, plan, plan_wf, seg_in_window,
    spec_transform_seg, transform_segment, width_num, lemma_transform_in_canvas_rev,
};
use vstd::pervasive::unreached;

/// The library's fixed-point scale: one unit is a million micro-units.
pub const MICRO: i64 = 1_000_000;

/// The plan a bounding box gives rise to.
pub open spec fn plan_of(bb: BBoxModel, size: int, rev_x: bool, rev_y: bool) -> PlanModel {
    PlanModel {
        min_x: bb.min_x,
        min_y: bb.min_y,
        ext_x: bb.max_x - bb.min_x,
        ext_y: bb.max_y - bb.min_y,
        den: max2(bb.max_x - bb.min_x, bb.max_y - bb.min_y),
        size,
        rev_x,
        rev_y,
    }
}

/// The document the whole pipeline produces from an input: scan the
/// lines, and either emit the degenerate empty document (no segments,
/// or all endpoints equal) or transform every segment and emit it.
pub open spec fn convert_spec(lines: Seq<Seq<u8>>, size: int, rev_x: bool, rev_y: bool) -> Seq<
    char,
> {
    let m = scan_spec(lines);
    if m.segs.len() == 0 {
        empty_document_str()
    } else {
        let bb = bbox_spec(m.segs);
        if bb.max_x == bb.min_x && bb.max_y == bb.min_y {
            empty_document_str()
        } else {
            let p = plan_of(bb, size, rev_x, rev_y);
            document_str(
                width_num(p),
                height_num(p),
                p.den,
                m.segs.map_values(|s: SegModel| spec_transform_seg(p, s)),
            )
        }
    }
}

fn emit_empty() -> (doc: String)
    ensures
        doc@ == empty_document_str(),
{
    let none: Vec<OutSeg> = Vec::new();
    let doc = emit_document(0, 0, 1, &none);
    proof {
        assert(out_segs_view(none@) =~= Seq::<OutSegModel>::empty());
    }
    doc
}

/// Runs the whole pipeline on the input lines: returns the finished
/// document, or fails exactly when the scan meets an instruction
/// operand beyond the fixed-point range.
pub fn convert(lines: &Vec<Vec<u8>>, size: u32, rev_x: bool, rev_y: bool) -> (r: Result<
    String,
    ScanError,
>)
    ensures
        (r is Ok) <==> scan_spec(lines_view(lines@)).ok,
        r matches Ok(doc) ==> doc@ == convert_spec(lines_view(lines@), size as int, rev_x, rev_y),
{
    let ghost lv = lines_view(lines@);
    let ghost m = scan_spec(lv);
    let segs = match scan(lines) {
        Ok(s) => s,
        Err(e) => {
            return Err(e);
        },
    };
    let ghost sv = segs_view(segs@);
    proof {
        assert(sv.len() == segs@.len());
    }
    if segs.len() == 0 {
        return Ok(emit_empty());
    }
    let bb = match bounding_box(&segs) {
        Some(b) => b,
        None => unreached(),
    };
    proof {
        lemma_bbox_ordered(sv);
    }
    let pl = match plan(&bb, size, rev_x, rev_y) {
        Some(p) => p,
        None => {
            // Degenerate geometry: every endpoint coincides, no scale
            // is defined; the policy is the empty document.
            return Ok(emit_empty());
        },
    };
    let mut outs: Vec<OutSeg> = Vec::new();
    proof {
        assert(out_segs_view(outs@) =~= sv.take(0).map_values(
            |s: SegModel| spec_transform_seg(pl@, s),
        ));
    }
    for i in 0..segs.len()
        invariant
            sv == segs_view(segs@),
            sv.len() == segs@.len(),
            plan_wf(pl@),
            pl@ == plan_of(bbox_spec(sv), size as int, rev_x, rev_y),
            out_segs_view(outs@) == sv.take(i as int).map_values(
                |s: SegModel| spec_transform_seg(pl@, s),
            ),
    {
        let s = segs[i];
        proof {
            lemma_bbox_contains(sv, i as int);
            assert(sv[i as int] == segs@[i as int]@);
            assert(seg_in_window(pl@, s@));
        }
        let o = transform_segment(&pl, &s);
        let ghost old_outs = outs@;
        outs.push(o);
        proof {
            assert(out_segs_view(outs@) =~= out_segs_view(old_outs).push(o@));
            assert(sv.take(i + 1).map_values(|q: SegModel| spec_transform_seg(pl@, q)) =~= sv.take(
                i as int,
            ).map_values(|q: SegModel| spec_transform_seg(pl@, q)).push(
                spec_transform_seg(pl@, sv[i as int]),
            ));
        }
    }
    proof {
        assert(pl@.ext_x * pl@.size <= pl@.den * 0xffffffff
            && pl@.ext_x * pl@.size <= 0x1000000000000000000000000
            && pl@.ext_x * pl@.size >= 0) by (nonlinear_arith)
            requires
                0 <= pl@.ext_x <= pl@.den <= 0x10000000000000000,
                0 <= pl@.size < 0x100000000,
        ;
        assert(pl@.ext_y * pl@.size <= pl@.den * 0xffffffff
            && pl@.ext_y * pl@.size <= 0x1000000000000000000000000
            && pl@.ext_y * pl@.size >= 0) by (nonlinear_arith)
            requires
                0 <= pl@.ext_y <= pl@.den <= 0x10000000000000000,
                0 <= pl@.size < 0x100000000,
        ;
    }
    let wn = pl.ext_x * (pl.size as i128);
    let hn = pl.ext_y * (pl.size as i128);
    proof {
        lemma_scan_widths(init_scan(), lv);
        assert(sv.take(sv.len() as int) =~= sv);
        assert(pl@.size * pl@.den <= pl@.den * 0xffffffff) by (nonlinear_arith)
            requires
                0 <= pl@.size < 0x100000000,
                0 <= pl@.den,
        ;
        assert forall|k: int| 0 <= k < outs@.len() implies out_seg_printable(
            #[trigger] outs@[k]@,
            pl@.den,
        ) by {
            assert(outs@[k]@ == out_segs_view(outs@)[k]);
            assert(outs@[k]@ == spec_transform_seg(pl@, sv[k]));
            lemma_bbox_contains(sv, k);
            lemma_transform_in_canvas_rev(pl@, sv[k]);
            assert(sv[k].w >= 0);
        }
    }
    let doc = emit_document(wn, hn, pl.den, &outs);
    proof {
        assert(out_segs_view(outs@) == sv.map_values(|s: SegModel| spec_transform_seg(pl@, s)));
        assert(doc@ == convert_spec(lv, size as int, rev_x, rev_y));
    }
    Ok(doc)
}

} // verus!
