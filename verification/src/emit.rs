//! The SVG emitter: one opening tag with the canvas size, one line
//! element per segment in original order, one closing tag.
//!
//! Pixel values are exact rationals over the plan's denominator; each
//! is printed as a decimal with six fractional digits, rounded toward
//! zero.

use vstd::prelude::*;
use vstd::string::StringExecFns;
use vstd::arithmetic::div_mod::{lemma_div_is_ordered, lemma_div_multiples_vanish};
use crate::transform::{OutSeg, OutSegModel};

verus! {

/// The character of one decimal digit.
pub open spec fn digit_char(d: int) -> char {
    if d == 0 {
        '0'
    } else if d == 1 {
        '1'
    } else if d == 2 {
        '2'
    } else if d == 3 {
        '3'
    } else if d == 4 {
        '4'
    } else if d == 5 {
        '5'
    } else if d == 6 {
        '6'
    } else if d == 7 {
        '7'
    } else if d == 8 {
        '8'
    } else {
        '9'
    }
}

/// Decimal digits of a non-negative number, no leading zeros except
/// for zero itself.
pub open spec fn dec_str(n: int) -> Seq<char>
    recommends
        n >= 0,
    decreases n,
{
    if n < 10 {
        seq![digit_char(n)]
    } else {
        dec_str(n / 10).push(digit_char(n % 10))
    }
}

/// Exactly `width` decimal digits of `n`, zero-padded at the front.
pub open spec fn dec_str_pad(n: int, width: nat) -> Seq<char>
    decreases width,
{
    if width == 0 {
        Seq::empty()
    } else {
        dec_str_pad(n / 10, (width - 1) as nat).push(digit_char(n % 10))
    }
}

/// A micro-unit count printed as a decimal: integer part, dot, six
/// fractional digits.
pub open spec fn micro_str(u: int) -> Seq<char> {
    dec_str(u / 1000000) + "."@ + dec_str_pad(u % 1000000, 6)
}

/// The pixel value of the rational `num / den`, in micro-pixels,
/// rounded toward zero.
pub open spec fn ratio_micro(num: int, den: int) -> int {
    (num * 1000000) / den
}

/// A rational coordinate printed as a decimal.
pub open spec fn coord_str(num: int, den: int) -> Seq<char> {
    micro_str(ratio_micro(num, den))
}

fn digit_literal(d: u64) -> (r: &'static str)
    requires
        d < 10,
    ensures
        r@ == seq![digit_char(d as int)],
{
    if d == 0 {
        proof { reveal_strlit("0"); }
        "0"
    } else if d == 1 {
        proof { reveal_strlit("1"); }
        "1"
    } else if d == 2 {
        proof { reveal_strlit("2"); }
        "2"
    } else if d == 3 {
        proof { reveal_strlit("3"); }
        "3"
    } else if d == 4 {
        proof { reveal_strlit("4"); }
        "4"
    } else if d == 5 {
        proof { reveal_strlit("5"); }
        "5"
    } else if d == 6 {
        proof { reveal_strlit("6"); }
        "6"
    } else if d == 7 {
        proof { reveal_strlit("7"); }
        "7"
    } else if d == 8 {
        proof { reveal_strlit("8"); }
        "8"
    } else {
        proof { reveal_strlit("9"); }
        "9"
    }
}

/// Appends the decimal digits of `n`.
pub fn push_dec(out: &mut String, n: u64)
    ensures
        final(out)@ == old(out)@ + dec_str(n as int),
    decreases n,
{
    if n < 10 {
        out.append(digit_literal(n));
    } else {
        push_dec(out, n / 10);
        out.append(digit_literal(n % 10));
    }
}

/// Appends exactly `width` zero-padded decimal digits of `n`.
pub fn push_dec_pad(out: &mut String, n: u64, width: u64)
    ensures
        final(out)@ == old(out)@ + dec_str_pad(n as int, width as nat),
    decreases width,
{
    if width > 0 {
        push_dec_pad(out, n / 10, width - 1);
        out.append(digit_literal(n % 10));
    } else {
        proof {
            assert(old(out)@ + dec_str_pad(n as int, 0) =~= old(out)@);
        }
    }
}

/// Appends a micro-unit count as a decimal with six fractional digits.
pub fn push_micro(out: &mut String, u: u64)
    ensures
        final(out)@ == old(out)@ + micro_str(u as int),
{
    push_dec(out, u / 1000000);
    out.append(".");
    push_dec_pad(out, u % 1000000, 6);
    proof {
        assert(final(out)@ =~= old(out)@ + micro_str(u as int));
    }
}

/// Appends one rational coordinate, `num / den` pixels, as a decimal.
pub fn push_coord(out: &mut String, num: i128, den: i128)
    requires
        0 <= num,
        1 <= den,
        num <= den * 0xffffffff,
        num <= 0x1000000000000000000000000,
    ensures
        final(out)@ == old(out)@ + coord_str(num as int, den as int),
{
    proof {
        lemma_div_is_ordered(num as int * 1000000, den as int * 4294967295000000, den as int);
        lemma_div_multiples_vanish(4294967295000000, den as int);
        assert(num as int * 1000000 <= (den as int * 0xffffffff) * 1000000) by (nonlinear_arith)
            requires num as int <= den as int * 0xffffffff;
        assert((den as int * 0xffffffff) * 1000000 == den as int * 4294967295000000) by (nonlinear_arith);
        assert(0 <= num as int * 1000000 / den as int) by {
            lemma_div_is_ordered(0, num as int * 1000000, den as int);
        };
    }
    let wide: u128 = (num as u128) * 1000000;
    let q: u128 = wide / (den as u128);
    push_micro(out, q as u64);
}

// ---------------------------------------------------------------------
// The document
// ---------------------------------------------------------------------

/// The opening tag, carrying the canvas width and height in pixels.
pub open spec fn header_str(wn: int, hn: int, den: int) -> Seq<char> {
    "<svg version=\"1.1\" baseProfile=\"full\" width=\""@ + coord_str(wn, den)
        + "\" height=\""@ + coord_str(hn, den)
        + "\" xmlns=\"http://www.w3.org/2000/svg\">\n"@
}

/// One line element: four coordinates and the stroke width, colour
/// fixed to black.
pub open spec fn elem_str(o: OutSegModel, den: int) -> Seq<char> {
    "  <line x1=\""@ + coord_str(o.x0, den) + "\" y1=\""@ + coord_str(o.y0, den)
        + "\" x2=\""@ + coord_str(o.x1, den) + "\" y2=\""@ + coord_str(o.y1, den)
        + "\" stroke=\"black\" stroke-width=\""@ + micro_str(o.w) + "\" />\n"@
}

/// All line elements, in original order.
pub open spec fn elems_str(os: Seq<OutSegModel>, den: int) -> Seq<char>
    decreases os.len(),
{
    if os.len() == 0 {
        Seq::empty()
    } else {
        elems_str(os.drop_last(), den) + elem_str(os.last(), den)
    }
}

/// The whole document.
pub open spec fn document_str(wn: int, hn: int, den: int, os: Seq<OutSegModel>) -> Seq<char> {
    header_str(wn, hn, den) + elems_str(os, den) + "</svg>"@
}

/// The degenerate-geometry document: zero canvas, no elements.
pub open spec fn empty_document_str() -> Seq<char> {
    document_str(0, 0, 1, Seq::empty())
}

pub open spec fn out_segs_view(v: Seq<OutSeg>) -> Seq<OutSegModel> {
    v.map_values(|o: OutSeg| o@)
}

/// A transformed segment whose values the emitter can print: all
/// coordinates inside the canvas, width non-negative.
pub open spec fn out_seg_printable(o: OutSegModel, den: int) -> bool {
    &&& 0 <= o.x0 <= den * 0xffffffff
    &&& 0 <= o.y0 <= den * 0xffffffff
    &&& 0 <= o.x1 <= den * 0xffffffff
    &&& 0 <= o.y1 <= den * 0xffffffff
    &&& 0 <= o.w
}

/// Writes the whole document: header, one element per segment in
/// order, footer.
pub fn emit_document(wn: i128, hn: i128, den: i128, segs: &Vec<OutSeg>) -> (out: String)
    requires
        1 <= den <= 0x10000000000000000,
        0 <= wn <= den * 0xffffffff,
        0 <= hn <= den * 0xffffffff,
        forall|i: int| 0 <= i < segs@.len() ==> out_seg_printable(#[trigger] segs@[i]@, den as int),
    ensures
        out@ == document_str(wn as int, hn as int, den as int, out_segs_view(segs@)),
{
    let ghost osv = out_segs_view(segs@);
    proof {
        assert(den as int * 0xffffffff <= 0x1000000000000000000000000) by (nonlinear_arith)
            requires den as int <= 0x10000000000000000;
    }
    let mut out = String::new();
    out.append("<svg version=\"1.1\" baseProfile=\"full\" width=\"");
    push_coord(&mut out, wn, den);
    out.append("\" height=\"");
    push_coord(&mut out, hn, den);
    out.append("\" xmlns=\"http://www.w3.org/2000/svg\">\n");
    proof {
        assert(out@ =~= header_str(wn as int, hn as int, den as int));
        assert(osv.take(0) =~= Seq::<OutSegModel>::empty());
    }
    for i in 0..segs.len()
        invariant
            osv == out_segs_view(segs@),
            osv.len() == segs@.len(),
            1 <= den <= 0x10000000000000000,
            den as int * 0xffffffff <= 0x1000000000000000000000000,
            forall|k: int| 0 <= k < segs@.len() ==> out_seg_printable(#[trigger] segs@[k]@, den as int),
            out@ == header_str(wn as int, hn as int, den as int) + elems_str(osv.take(i as int), den as int),
    {
        proof {
            assert(osv.take(i + 1).drop_last() =~= osv.take(i as int));
            assert(osv.take(i + 1).last() == osv[i as int]);
            assert(osv[i as int] == segs@[i as int]@);
        }
        let ghost prefix = out@;
        let s = segs[i];
        out.append("  <line x1=\"");
        push_coord(&mut out, s.x0, den);
        out.append("\" y1=\"");
        push_coord(&mut out, s.y0, den);
        out.append("\" x2=\"");
        push_coord(&mut out, s.x1, den);
        out.append("\" y2=\"");
        push_coord(&mut out, s.y1, den);
        out.append("\" stroke=\"black\" stroke-width=\"");
        push_micro(&mut out, s.w as u64);
        out.append("\" />\n");
        proof {
            assert(out@ =~= prefix + elem_str(osv[i as int], den as int));
            assert(out@ =~= header_str(wn as int, hn as int, den as int)
                + elems_str(osv.take(i + 1), den as int));
        }
    }
    out.append("</svg>");
    proof {
        assert(osv.take(osv.len() as int) =~= osv);
        assert(out@ =~= document_str(wn as int, hn as int, den as int, osv));
    }
    out
}

} // verus!
