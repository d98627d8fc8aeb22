//! The command extractor: scans input lines, guarded by a start and an
//! end marker, and drives the pen to collect segments.
//!
//! Inside the active region a line is split into whitespace-separated
//! tokens and matched, whole, against the three instruction shapes
//! `<num> <num> m`, `<num> <num> l` and `<num> w`.  Any other line is
//! silently ignored.

use vstd::prelude::*;
use crate::decimal::{
    is_digit, is_decimal, is_unsigned_decimal, decimal_micro, unsigned_micro,
    dot_of, digits_val, pow10, all_digits, unsigned_shape_at,
    lemma_digits_val_bound, lemma_pow10_pos, Parsed, parse_decimal, MAX_MICRO,
};
use crate::geom::{Point, PointModel, Segment, SegModel};

verus! {

// ---------------------------------------------------------------------
// Markers
// ---------------------------------------------------------------------

/// The bytes of the start marker `%%Note:`.
pub open spec fn note_marker() -> Seq<u8> {
    seq![37u8, 37u8, 78u8, 111u8, 116u8, 101u8, 58u8]
}

/// The bytes of the end marker `%%EOF`.
pub open spec fn eof_marker() -> Seq<u8> {
    seq![37u8, 37u8, 69u8, 79u8, 70u8]
}

pub open spec fn has_prefix(s: Seq<u8>, p: Seq<u8>) -> bool {
    s.len() >= p.len() && s.subrange(0, p.len() as int) == p
}

fn is_note_line(s: &[u8]) -> (b: bool)
    ensures
        b == has_prefix(s@, note_marker()),
{
    if s.len() < 7 {
        return false;
    }
    let b = s[0] == 37 && s[1] == 37 && s[2] == 78 && s[3] == 111 && s[4] == 116 && s[5] == 101
        && s[6] == 58;
    proof {
        if b {
            assert(s@.subrange(0, 7) =~= note_marker());
        } else {
            if s@.subrange(0, 7) == note_marker() {
                assert(forall|i: int| 0 <= i < 7 ==> s@[i] == note_marker()[i]);
            }
        }
    }
    b
}

fn is_eof_line(s: &[u8]) -> (b: bool)
    ensures
        b == has_prefix(s@, eof_marker()),
{
    if s.len() < 5 {
        return false;
    }
    let b = s[0] == 37 && s[1] == 37 && s[2] == 69 && s[3] == 79 && s[4] == 70;
    proof {
        if b {
            assert(s@.subrange(0, 5) =~= eof_marker());
        } else {
            if s@.subrange(0, 5) == eof_marker() {
                assert(forall|i: int| 0 <= i < 5 ==> s@[i] == eof_marker()[i]);
            }
        }
    }
    b
}

// ---------------------------------------------------------------------
// Whitespace tokenization
// ---------------------------------------------------------------------

/// ASCII whitespace, as a line normalizer sees it.
pub open spec fn is_space(c: u8) -> bool {
    c == 32 || (9 <= c && c <= 13)
}

fn byte_is_space(c: u8) -> (b: bool)
    ensures
        b == is_space(c),
{
    c == 32 || (9 <= c && c <= 13)
}

/// Accumulator of the left-to-right token fold: the words completed so
/// far and the current unfinished run.
pub struct TokState {
    pub words: Seq<Seq<u8>>,
    pub cur: Seq<u8>,
}

pub open spec fn tok_step(st: TokState, c: u8) -> TokState {
    if is_space(c) {
        if st.cur.len() > 0 {
            TokState { words: st.words.push(st.cur), cur: Seq::empty() }
        } else {
            st
        }
    } else {
        TokState { words: st.words, cur: st.cur.push(c) }
    }
}

pub open spec fn tok_run(s: Seq<u8>) -> TokState
    decreases s.len(),
{
    if s.len() == 0 {
        TokState { words: Seq::empty(), cur: Seq::empty() }
    } else {
        tok_step(tok_run(s.drop_last()), s.last())
    }
}

/// The whitespace-separated tokens of a line: leading and trailing
/// whitespace dropped, internal runs collapsed.
pub open spec fn tokens(s: Seq<u8>) -> Seq<Seq<u8>> {
    let st = tok_run(s);
    if st.cur.len() > 0 {
        st.words.push(st.cur)
    } else {
        st.words
    }
}

pub open spec fn words_view(ws: Seq<Vec<u8>>) -> Seq<Seq<u8>> {
    ws.map_values(|w: Vec<u8>| w@)
}

/// Splits a line into its whitespace-separated tokens.
pub fn tokenize(s: &[u8]) -> (r: Vec<Vec<u8>>)
    ensures
        words_view(r@) == tokens(s@),
{
    let mut words: Vec<Vec<u8>> = Vec::new();
    let mut cur: Vec<u8> = Vec::new();
    proof {
        assert(s@.take(0) =~= Seq::<u8>::empty());
        assert(words_view(words@) =~= tok_run(s@.take(0)).words);
    }
    for i in 0..s.len()
        invariant
            words_view(words@) == tok_run(s@.take(i as int)).words,
            cur@ == tok_run(s@.take(i as int)).cur,
    {
        proof {
            assert(s@.take(i + 1).drop_last() =~= s@.take(i as int));
            assert(s@.take(i + 1).last() == s@[i as int]);
        }
        let c = s[i];
        if byte_is_space(c) {
            if cur.len() > 0 {
                let ghost old_words = words@;
                let ghost finished = cur@;
                words.push(cur);
                cur = Vec::new();
                proof {
                    assert(words_view(words@) =~= words_view(old_words).push(finished));
                }
            }
        } else {
            cur.push(c);
        }
    }
    proof {
        assert(s@.take(s@.len() as int) =~= s@);
    }
    if cur.len() > 0 {
        let ghost old_words = words@;
        let ghost finished = cur@;
        words.push(cur);
        proof {
            assert(words_view(words@) =~= words_view(old_words).push(finished));
        }
    }
    words
}

// ---------------------------------------------------------------------
// Line classification
// ---------------------------------------------------------------------

/// A recognized instruction, with exact micro-unit operands.
pub enum InstrModel {
    NoInstr,
    MoveTo { x: int, y: int },
    LineTo { x: int, y: int },
    SetWidth { w: int },
}

pub open spec fn tok_m() -> Seq<u8> {
    seq![109u8]
}

pub open spec fn tok_l() -> Seq<u8> {
    seq![108u8]
}

pub open spec fn tok_w() -> Seq<u8> {
    seq![119u8]
}

/// Matches a whole line, as tokens, against the three instruction
/// shapes.  The shapes are mutually exclusive; a line matching none is
/// no instruction.  The width operand takes no minus sign.
pub open spec fn classify(s: Seq<u8>) -> InstrModel {
    let ts = tokens(s);
    if ts.len() == 3 && is_decimal(ts[0]) && is_decimal(ts[1]) && ts[2] == tok_m() {
        InstrModel::MoveTo { x: decimal_micro(ts[0]), y: decimal_micro(ts[1]) }
    } else if ts.len() == 3 && is_decimal(ts[0]) && is_decimal(ts[1]) && ts[2] == tok_l() {
        InstrModel::LineTo { x: decimal_micro(ts[0]), y: decimal_micro(ts[1]) }
    } else if ts.len() == 2 && is_unsigned_decimal(ts[0]) && ts[1] == tok_w() {
        InstrModel::SetWidth { w: unsigned_micro(ts[0]) }
    } else {
        InstrModel::NoInstr
    }
}

pub open spec fn fits_val(v: int) -> bool {
    -(MAX_MICRO as int) <= v <= MAX_MICRO as int
}

/// All operands of the instruction fit the fixed-point range.
pub open spec fn instr_fits(ins: InstrModel) -> bool {
    match ins {
        InstrModel::NoInstr => true,
        InstrModel::MoveTo { x, y } => fits_val(x) && fits_val(y),
        InstrModel::LineTo { x, y } => fits_val(x) && fits_val(y),
        InstrModel::SetWidth { w } => fits_val(w),
    }
}

/// A recognized instruction with machine operands, or the report that
/// an operand of a recognized instruction does not fit.
pub enum Instr {
    NoInstr,
    MoveTo(i64, i64),
    LineTo(i64, i64),
    SetWidth(i64),
    TooLarge,
}

/// How an executable classification relates to the model one.
pub open spec fn instr_rel(r: Instr, m: InstrModel) -> bool {
    match r {
        Instr::NoInstr => m is NoInstr,
        Instr::TooLarge => !(m is NoInstr) && !instr_fits(m),
        Instr::MoveTo(x, y) => m == (InstrModel::MoveTo { x: x as int, y: y as int })
            && instr_fits(m),
        Instr::LineTo(x, y) => m == (InstrModel::LineTo { x: x as int, y: y as int })
            && instr_fits(m),
        Instr::SetWidth(w) => m == (InstrModel::SetWidth { w: w as int }) && instr_fits(m),
    }
}

/// The value of an unsigned decimal token is never negative.
pub proof fn lemma_unsigned_micro_nonneg(s: Seq<u8>)
    requires
        is_unsigned_decimal(s),
    ensures
        unsigned_micro(s) >= 0,
{
    let k = dot_of(s);
    assert(unsigned_shape_at(s, k));
    let ipart = s.subrange(0, k);
    let fpart = s.subrange(k + 1, s.len() as int);
    assert(all_digits(ipart));
    assert(all_digits(fpart));
    lemma_digits_val_bound(ipart);
    let ipv = digits_val(ipart);
    assert(ipv * 1000000 >= 0) by (nonlinear_arith)
        requires ipv >= 0;
    if fpart.len() >= 6 {
        assert(all_digits(fpart.subrange(0, 6)));
        lemma_digits_val_bound(fpart.subrange(0, 6));
    } else {
        lemma_digits_val_bound(fpart);
        lemma_pow10_pos((6 - fpart.len()) as nat);
        let dv = digits_val(fpart);
        let p = pow10((6 - fpart.len()) as nat);
        assert(dv * p >= 0) by (nonlinear_arith)
            requires dv >= 0, p > 0;
    }
}

/// Classifies one line of the active region.
pub fn classify_line(s: &[u8]) -> (r: Instr)
    ensures
        instr_rel(r, classify(s@)),
{
    let ts = tokenize(s);
    let ghost tv = tokens(s@);
    if ts.len() == 3 {
        let last = ts[2].as_slice();
        proof {
            assert(tv[2] == ts@[2]@);
        }
        let is_m = last.len() == 1 && last[0] == 109;
        let is_l = !is_m && last.len() == 1 && last[0] == 108;
        proof {
            if is_m {
                assert(tv[2] =~= tok_m());
            } else if is_l {
                assert(tv[2] =~= tok_l());
            } else {
                if tv[2] == tok_m() {
                    assert(tv[2].len() == 1 && tv[2][0] == 109);
                }
                if tv[2] == tok_l() {
                    assert(tv[2].len() == 1 && tv[2][0] == 108);
                }
            }
        }
        if is_m || is_l {
            proof {
                assert(tv[0] == ts@[0]@);
                assert(tv[1] == ts@[1]@);
            }
            let p0 = parse_decimal(ts[0].as_slice());
            let p1 = parse_decimal(ts[1].as_slice());
            match (p0, p1) {
                (Parsed::NotDecimal, _) => Instr::NoInstr,
                (_, Parsed::NotDecimal) => Instr::NoInstr,
                (Parsed::TooLarge, _) => Instr::TooLarge,
                (_, Parsed::TooLarge) => Instr::TooLarge,
                (Parsed::Value(x), Parsed::Value(y)) => {
                    if is_m {
                        Instr::MoveTo(x, y)
                    } else {
                        Instr::LineTo(x, y)
                    }
                },
            }
        } else {
            Instr::NoInstr
        }
    } else if ts.len() == 2 {
        let last = ts[1].as_slice();
        proof {
            assert(tv[1] == ts@[1]@);
            assert(tv[0] == ts@[0]@);
        }
        if last.len() == 1 && last[0] == 119 {
            proof {
                assert(tv[1] =~= tok_w());
            }
            let first = ts[0].as_slice();
            if first.len() > 0 && first[0] == 45 {
                // A signed token is no width instruction.
                proof {
                    if is_unsigned_decimal(tv[0]) {
                        let k = dot_of(tv[0]);
                        assert(unsigned_shape_at(tv[0], k));
                        assert(is_digit(tv[0][0]));
                    }
                }
                Instr::NoInstr
            } else {
                proof {
                    if tv[0].len() > 0 {
                        assert(tv[0][0] != 45);
                    }
                    assert(is_decimal(tv[0]) == is_unsigned_decimal(tv[0]));
                }
                match parse_decimal(first) {
                    Parsed::NotDecimal => Instr::NoInstr,
                    Parsed::TooLarge => {
                        proof {
                            assert(decimal_micro(tv[0]) == unsigned_micro(tv[0]));
                        }
                        Instr::TooLarge
                    },
                    Parsed::Value(w) => {
                        proof {
                            assert(decimal_micro(tv[0]) == unsigned_micro(tv[0]));
                        }
                        Instr::SetWidth(w)
                    },
                }
            }
        } else {
            proof {
                if tv[1] == tok_w() {
                    assert(tv[1].len() == 1 && tv[1][0] == 119);
                }
            }
            Instr::NoInstr
        }
    } else {
        Instr::NoInstr
    }
}

// ---------------------------------------------------------------------
// The scan state machine
// ---------------------------------------------------------------------

/// The marker guard: skipping until the start marker, consuming the
/// active region, or stopped at the end marker.
#[derive(Clone, Copy, PartialEq, Eq, Structural, Debug)]
pub enum Phase {
    Inactive,
    Active,
    Done,
}

/// Model of the whole scan state.
pub struct ScanModel {
    pub phase: Phase,
    pub pen: PointModel,
    pub segs: Seq<SegModel>,
    pub ok: bool,
}

/// One line of input applied to the scan state.
pub open spec fn scan_step(st: ScanModel, line: Seq<u8>) -> ScanModel {
    if st.phase is Done {
        st
    } else if has_prefix(line, note_marker()) {
        ScanModel { phase: Phase::Active, ..st }
    } else if st.phase is Inactive {
        st
    } else if has_prefix(line, eof_marker()) {
        ScanModel { phase: Phase::Done, ..st }
    } else {
        match classify(line) {
            InstrModel::NoInstr => st,
            InstrModel::MoveTo { x, y } => ScanModel {
                pen: PointModel { x, y, w: st.pen.w },
                ok: st.ok && fits_val(x) && fits_val(y),
                ..st
            },
            InstrModel::LineTo { x, y } => ScanModel {
                pen: PointModel { x, y, w: st.pen.w },
                segs: st.segs.push(SegModel { x0: st.pen.x, y0: st.pen.y, x1: x, y1: y, w: st.pen.w }),
                ok: st.ok && fits_val(x) && fits_val(y),
                ..st
            },
            InstrModel::SetWidth { w } => ScanModel {
                pen: PointModel { x: st.pen.x, y: st.pen.y, w },
                ok: st.ok && fits_val(w),
                ..st
            },
        }
    }
}

pub open spec fn scan_from(st: ScanModel, lines: Seq<Seq<u8>>) -> ScanModel
    decreases lines.len(),
{
    if lines.len() == 0 {
        st
    } else {
        scan_step(scan_from(st, lines.drop_last()), lines.last())
    }
}

/// The starting state: region not yet open, pen at the origin with width one
/// unit, nothing collected.
pub open spec fn init_scan() -> ScanModel {
    ScanModel {
        phase: Phase::Inactive,
        pen: PointModel { x: 0, y: 0, w: 1000000 },
        segs: Seq::empty(),
        ok: true,
    }
}

/// The result of scanning a whole input.
pub open spec fn scan_spec(lines: Seq<Seq<u8>>) -> ScanModel {
    scan_from(init_scan(), lines)
}

pub proof fn lemma_scan_done_inert(st: ScanModel, lines: Seq<Seq<u8>>)
    requires
        st.phase is Done,
    ensures
        scan_from(st, lines) == st,
    decreases lines.len(),
{
    if lines.len() > 0 {
        lemma_scan_done_inert(st, lines.drop_last());
    }
}

pub proof fn lemma_scan_ok_monotone(st: ScanModel, lines: Seq<Seq<u8>>)
    requires
        !st.ok,
    ensures
        !scan_from(st, lines).ok,
    decreases lines.len(),
{
    if lines.len() > 0 {
        lemma_scan_ok_monotone(st, lines.drop_last());
    }
}

pub proof fn lemma_scan_from_app(st: ScanModel, a: Seq<Seq<u8>>, b: Seq<Seq<u8>>)
    ensures
        scan_from(st, a + b) == scan_from(scan_from(st, a), b),
    decreases b.len(),
{
    if b.len() == 0 {
        assert(a + b =~= a);
    } else {
        assert((a + b).drop_last() =~= a + b.drop_last());
        assert((a + b).last() == b.last());
        lemma_scan_from_app(st, a, b.drop_last());
    }
}

// ---------------------------------------------------------------------
// Laws of the scan
// ---------------------------------------------------------------------

/// The marker guard alone, folded over the lines: which phase the scan is in
/// depends only on markers, never on the pen or the segments.
pub open spec fn phase_step(ph: Phase, line: Seq<u8>) -> Phase {
    if ph is Done {
        ph
    } else if has_prefix(line, note_marker()) {
        Phase::Active
    } else if ph is Inactive {
        ph
    } else if has_prefix(line, eof_marker()) {
        Phase::Done
    } else {
        ph
    }
}

pub open spec fn phase_from(ph: Phase, lines: Seq<Seq<u8>>) -> Phase
    decreases lines.len(),
{
    if lines.len() == 0 {
        ph
    } else {
        phase_step(phase_from(ph, lines.drop_last()), lines.last())
    }
}

pub proof fn lemma_phase_agrees(st: ScanModel, lines: Seq<Seq<u8>>)
    ensures
        scan_from(st, lines).phase == phase_from(st.phase, lines),
    decreases lines.len(),
{
    if lines.len() > 0 {
        lemma_phase_agrees(st, lines.drop_last());
    }
}

/// A line that emits a segment: met inside the active region, no marker,
/// and classified as a line instruction.
pub open spec fn is_line_event(ph: Phase, line: Seq<u8>) -> bool {
    &&& ph is Active
    &&& !has_prefix(line, note_marker())
    &&& !has_prefix(line, eof_marker())
    &&& classify(line) is LineTo
}

/// How many lines of the input emit a segment, starting from guard
/// phase `ph`.
pub open spec fn count_lineto(ph: Phase, lines: Seq<Seq<u8>>) -> int
    decreases lines.len(),
{
    if lines.len() == 0 {
        0
    } else {
        count_lineto(ph, lines.drop_last()) + if is_line_event(
            phase_from(ph, lines.drop_last()),
            lines.last(),
        ) {
            1int
        } else {
            0int
        }
    }
}

/// The number of collected segments equals the number of line
/// instructions met inside the active region, however many move or
/// width lines come between.
pub proof fn lemma_segment_count(st: ScanModel, lines: Seq<Seq<u8>>)
    ensures
        scan_from(st, lines).segs.len() == st.segs.len() + count_lineto(st.phase, lines),
    decreases lines.len(),
{
    if lines.len() > 0 {
        lemma_segment_count(st, lines.drop_last());
        lemma_phase_agrees(st, lines.drop_last());
    }
}

/// While the region is not yet open, a line without the start marker changes
/// nothing at all.
pub proof fn lemma_inactive_skips(st: ScanModel, line: Seq<u8>)
    requires
        st.phase is Inactive,
        !has_prefix(line, note_marker()),
    ensures
        scan_step(st, line) == st,
{
}

/// Lines before the start marker never produce segments, however
/// well-formed: a run of lines without the start marker leaves the
/// whole state untouched.
pub proof fn lemma_before_start_inert(st: ScanModel, lines: Seq<Seq<u8>>)
    requires
        st.phase is Inactive,
        forall|i: int| 0 <= i < lines.len() ==> !has_prefix(#[trigger] lines[i], note_marker()),
    ensures
        scan_from(st, lines) == st,
    decreases lines.len(),
{
    if lines.len() > 0 {
        lemma_before_start_inert(st, lines.drop_last());
        lemma_inactive_skips(st, lines.last());
    }
}

/// Lines after the end marker never produce segments: once a scan has
/// reached the end marker, appending any further lines changes
/// nothing.
pub proof fn lemma_after_end_inert(lines: Seq<Seq<u8>>, rest: Seq<Seq<u8>>)
    requires
        scan_spec(lines).phase is Done,
    ensures
        scan_spec(lines + rest) == scan_spec(lines),
{
    lemma_scan_from_app(init_scan(), lines, rest);
    lemma_scan_done_inert(scan_spec(lines), rest);
}

/// A width instruction is never retroactive: it changes the pen width
/// alone, and every segment already collected stays exactly as it was.
pub proof fn lemma_width_not_retroactive(st: ScanModel, line: Seq<u8>)
    requires
        st.phase is Active,
        !has_prefix(line, note_marker()),
        !has_prefix(line, eof_marker()),
        classify(line) is SetWidth,
    ensures
        scan_step(st, line).segs == st.segs,
        scan_step(st, line).pen.x == st.pen.x,
        scan_step(st, line).pen.y == st.pen.y,
        classify(line) matches InstrModel::SetWidth { w } ==> scan_step(st, line).pen.w == w,
{
}

/// A width stays in effect until the next width instruction: no other
/// line changes it.
pub proof fn lemma_width_persists(st: ScanModel, line: Seq<u8>)
    requires
        !(classify(line) is SetWidth) || has_prefix(line, note_marker()) || has_prefix(
            line,
            eof_marker(),
        ) || !(st.phase is Active),
    ensures
        scan_step(st, line).pen.w == st.pen.w,
{
}

/// A segment is emitted with the width in effect at its own emission
/// time: the pen width standing when its line instruction arrives.
pub proof fn lemma_segment_uses_current_width(st: ScanModel, line: Seq<u8>)
    requires
        st.phase is Active,
        !has_prefix(line, note_marker()),
        !has_prefix(line, eof_marker()),
    ensures
        classify(line) matches InstrModel::LineTo { x, y } ==> scan_step(st, line).segs
            == st.segs.push(
            (SegModel { x0: st.pen.x, y0: st.pen.y, x1: x, y1: y, w: st.pen.w }),
        ),
{
}

/// No stroke width in the state is negative.
pub open spec fn widths_ok(m: ScanModel) -> bool {
    &&& m.pen.w >= 0
    &&& forall|i: int| 0 <= i < m.segs.len() ==> #[trigger] m.segs[i].w >= 0
}

/// Stroke widths are never negative: the pen starts at a positive
/// width and a width instruction takes an unsigned operand.
pub proof fn lemma_scan_widths(st: ScanModel, lines: Seq<Seq<u8>>)
    requires
        widths_ok(st),
    ensures
        widths_ok(scan_from(st, lines)),
    decreases lines.len(),
{
    if lines.len() > 0 {
        lemma_scan_widths(st, lines.drop_last());
        let m = scan_from(st, lines.drop_last());
        let line = lines.last();
        if !(m.phase is Done) && !has_prefix(line, note_marker()) && !(m.phase is Inactive)
            && !has_prefix(line, eof_marker()) {
            match classify(line) {
                InstrModel::SetWidth { w } => {
                    lemma_unsigned_micro_nonneg(tokens(line)[0]);
                },
                InstrModel::LineTo { x, y } => {
                    let pushed = m.segs.push(
                        SegModel { x0: m.pen.x, y0: m.pen.y, x1: x, y1: y, w: m.pen.w },
                    );
                    assert(forall|i: int| 0 <= i < m.segs.len() ==> pushed[i] == m.segs[i]);
                },
                _ => {},
            }
        }
    }
}

// ---------------------------------------------------------------------
// The executable scan
// ---------------------------------------------------------------------

/// The one fatal condition of scanning: an instruction operand beyond
/// the fixed-point range.
#[derive(Clone, Copy, PartialEq, Eq, Structural, Debug)]
pub enum ScanError {
    NumberTooLarge,
}

pub open spec fn segs_view(v: Seq<Segment>) -> Seq<SegModel> {
    v.map_values(|s: Segment| s@)
}

pub open spec fn lines_view(v: Seq<Vec<u8>>) -> Seq<Seq<u8>> {
    v.map_values(|l: Vec<u8>| l@)
}

/// Scans the whole input and returns the collected segments, in input
/// order; fails exactly when some recognized instruction in the active
/// region carries an operand beyond the fixed-point range.
pub fn scan(lines: &Vec<Vec<u8>>) -> (r: Result<Vec<Segment>, ScanError>)
    ensures
        (r is Ok) <==> scan_spec(lines_view(lines@)).ok,
        r matches Ok(segs) ==> segs_view(segs@) == scan_spec(lines_view(lines@)).segs,
{
    let ghost lv = lines_view(lines@);
    let mut phase = Phase::Inactive;
    let mut pen = Point::new();
    let mut segs: Vec<Segment> = Vec::new();
    proof {
        assert(lv.take(0) =~= Seq::<Seq<u8>>::empty());
        assert(segs_view(segs@) =~= Seq::<SegModel>::empty());
    }
    for i in 0..lines.len()
        invariant
            lv == lines_view(lines@),
            lines@.len() == lv.len(),
            scan_from(init_scan(), lv.take(i as int)).phase == phase,
            scan_from(init_scan(), lv.take(i as int)).pen == pen@,
            scan_from(init_scan(), lv.take(i as int)).segs == segs_view(segs@),
            scan_from(init_scan(), lv.take(i as int)).ok,
    {
        let ghost st = scan_from(init_scan(), lv.take(i as int));
        proof {
            assert(lv.take(i + 1).drop_last() =~= lv.take(i as int));
            assert(lv.take(i + 1).last() == lv[i as int]);
            assert(lv[i as int] == lines@[i as int]@);
        }
        let line = lines[i].as_slice();
        if phase == Phase::Done {
            // The end marker was seen: every further line is inert.
        } else if is_note_line(line) {
            phase = Phase::Active;
        } else if phase == Phase::Inactive {
            // Skipped: the region is not open yet.
        } else if is_eof_line(line) {
            phase = Phase::Done;
        } else {
            match classify_line(line) {
                Instr::NoInstr => {},
                Instr::MoveTo(x, y) => {
                    pen.moveto(x, y);
                },
                Instr::LineTo(x, y) => {
                    let seg = pen.lineto(x, y);
                    let ghost old_segs = segs@;
                    segs.push(seg);
                    proof {
                        assert(segs_view(segs@) =~= segs_view(old_segs).push(seg@));
                    }
                },
                Instr::SetWidth(w) => {
                    pen.set_width(w);
                },
                Instr::TooLarge => {
                    proof {
                        let st2 = scan_from(init_scan(), lv.take(i + 1));
                        assert(!st2.ok);
                        assert(lv =~= lv.take(i + 1) + lv.skip(i + 1));
                        lemma_scan_from_app(init_scan(), lv.take(i + 1), lv.skip(i + 1));
                        lemma_scan_ok_monotone(st2, lv.skip(i + 1));
                    }
                    return Err(ScanError::NumberTooLarge);
                },
            }
        }
    }
    proof {
        assert(lv.take(lv.len() as int) =~= lv);
    }
    Ok(segs)
}

} // verus!
