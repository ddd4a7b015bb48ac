//! The dimension estimator: one width per column, one height per row.
//!
//! A column's natural width is the widest padded content among the cells
//! anchored in it with column-span 1; rows get natural heights the same
//! way. Each span then enlarges the narrowest covered column (leftmost on
//! a tie) until the covered columns add up to the span's own requirement,
//! and row-spans enlarge covered rows symmetrically. Spans are applied in
//! list order, so the result is a pure function of grid and configuration.

use vstd::prelude::*;
use crate::Position;
use crate::grid::{
    Config, Records, SpanDesc, covered_by, cover_idx, find_cover, is_anchor, lemma_cover_unique,
    region_of, span_covers, spans_wf,
};

verus! {

/// The derived layout: a width per column and a height per row.
#[derive(Clone, Debug)]
pub struct Dimensions {
    pub widths: Vec<usize>,
    pub heights: Vec<usize>,
}

/// The view of a machine-word sequence as mathematical integers.
pub open spec fn as_ints(s: Seq<usize>) -> Seq<int> {
    s.map(|i: int, x: usize| x as int)
}

/// The sum of `ws[lo..hi]`.
pub open spec fn sumi(ws: Seq<int>, lo: int, hi: int) -> int
    decreases hi - lo,
{
    if hi <= lo {
        0
    } else {
        sumi(ws, lo, hi - 1) + ws[hi - 1]
    }
}

/// All entries of `ws` in `[lo, hi)` are non-negative.
pub open spec fn nonneg_in(ws: Seq<int>, lo: int, hi: int) -> bool {
    forall|k: int| lo <= k < hi ==> #[trigger] ws[k] >= 0
}

/// The index of the first minimum of `ws` in `[lo, hi)`.
pub open spec fn argmin_in(ws: Seq<int>, lo: int, hi: int) -> int
    decreases hi - lo,
{
    if lo + 1 >= hi {
        lo
    } else {
        let m = argmin_in(ws, lo + 1, hi);
        if ws[lo] <= ws[m] {
            lo
        } else {
            m
        }
    }
}

/// Enlarges the first narrowest entry of `ws[lo..hi]` so the range sums to
/// at least `req`; identity when it already does.
pub open spec fn bump(ws: Seq<int>, lo: int, hi: int, req: int) -> Seq<int> {
    let t = sumi(ws, lo, hi);
    if t >= req {
        ws
    } else {
        let m = argmin_in(ws, lo, hi);
        ws.update(m, ws[m] + (req - t))
    }
}

/// The padded width one cell requires.
pub open spec fn cell_req_w(recs: Records, cfg: Config, r: int, c: int) -> int {
    let k = cfg.spec_resolve(r, c);
    recs.cell(r, c).spec_text_width() + k.pad_left + k.pad_right
}

/// The padded height one cell requires.
pub open spec fn cell_req_h(recs: Records, cfg: Config, r: int, c: int) -> int {
    let k = cfg.spec_resolve(r, c);
    recs.cell(r, c).spec_text_height() + k.pad_top + k.pad_bottom
}

/// Whether `(r, c)` is an anchor whose region spans a single column.
pub open spec fn w_anchor(spans: Seq<SpanDesc>, r: int, c: int) -> bool {
    is_anchor(spans, r, c) && region_of(spans, r, c).cols == 1
}

/// Whether `(r, c)` is an anchor whose region spans a single row.
pub open spec fn h_anchor(spans: Seq<SpanDesc>, r: int, c: int) -> bool {
    is_anchor(spans, r, c) && region_of(spans, r, c).rows == 1
}

/// The natural width of column `c` over the first `k` rows.
pub open spec fn nat_w_upto(recs: Records, cfg: Config, c: int, k: int) -> int
    decreases k,
{
    if k <= 0 {
        0
    } else {
        let p = nat_w_upto(recs, cfg, c, k - 1);
        if w_anchor(cfg.spans@, k - 1, c) && cell_req_w(recs, cfg, k - 1, c) > p {
            cell_req_w(recs, cfg, k - 1, c)
        } else {
            p
        }
    }
}

/// The natural width of column `c`.
pub open spec fn natural_w(recs: Records, cfg: Config, c: int) -> int {
    nat_w_upto(recs, cfg, c, recs.nrows())
}

/// The natural height of row `r` over the first `k` columns.
pub open spec fn nat_h_upto(recs: Records, cfg: Config, r: int, k: int) -> int
    decreases k,
{
    if k <= 0 {
        0
    } else {
        let p = nat_h_upto(recs, cfg, r, k - 1);
        if h_anchor(cfg.spans@, r, k - 1) && cell_req_h(recs, cfg, r, k - 1) > p {
            cell_req_h(recs, cfg, r, k - 1)
        } else {
            p
        }
    }
}

/// The natural height of row `r`.
pub open spec fn natural_h(recs: Records, cfg: Config, r: int) -> int {
    nat_h_upto(recs, cfg, r, recs.ncols())
}

/// All natural column widths.
pub open spec fn natural_widths(recs: Records, cfg: Config) -> Seq<int> {
    Seq::new(recs.ncols() as nat, |c: int| natural_w(recs, cfg, c))
}

/// All natural row heights.
pub open spec fn natural_heights(recs: Records, cfg: Config) -> Seq<int> {
    Seq::new(recs.nrows() as nat, |r: int| natural_h(recs, cfg, r))
}

/// Column widths after the first `k` spans have been applied.
pub open spec fn widths_step(recs: Records, cfg: Config, k: int) -> Seq<int>
    decreases k,
{
    if k <= 0 {
        natural_widths(recs, cfg)
    } else {
        let s = cfg.spans@[k - 1];
        bump(
            widths_step(recs, cfg, k - 1),
            s.col as int,
            s.col + s.cols,
            cell_req_w(recs, cfg, s.row as int, s.col as int),
        )
    }
}

/// Row heights after the first `k` spans have been applied.
pub open spec fn heights_step(recs: Records, cfg: Config, k: int) -> Seq<int>
    decreases k,
{
    if k <= 0 {
        natural_heights(recs, cfg)
    } else {
        let s = cfg.spans@[k - 1];
        bump(
            heights_step(recs, cfg, k - 1),
            s.row as int,
            s.row + s.rows,
            cell_req_h(recs, cfg, s.row as int, s.col as int),
        )
    }
}

/// The final column widths of the dimension table.
pub open spec fn spec_widths(recs: Records, cfg: Config) -> Seq<int> {
    widths_step(recs, cfg, cfg.spans@.len() as int)
}

/// The final row heights of the dimension table.
pub open spec fn spec_heights(recs: Records, cfg: Config) -> Seq<int> {
    heights_step(recs, cfg, cfg.spans@.len() as int)
}

/// The rendered width of the whole table.
pub open spec fn total_width(recs: Records, cfg: Config) -> int {
    sumi(spec_widths(recs, cfg), 0, recs.ncols())
}

/// The rendered height of the whole table.
pub open spec fn total_height(recs: Records, cfg: Config) -> int {
    sumi(spec_heights(recs, cfg), 0, recs.nrows())
}

/// The machine limit on a layout: its totals must fit a `usize`.
pub open spec fn dims_fit(recs: Records, cfg: Config) -> bool {
    &&& total_width(recs, cfg) <= usize::MAX as int
    &&& total_height(recs, cfg) <= usize::MAX as int
}

pub proof fn lemma_sumi_nonneg(ws: Seq<int>, lo: int, hi: int)
    requires
        nonneg_in(ws, lo, hi),
    ensures
        sumi(ws, lo, hi) >= 0,
    decreases hi - lo,
{
    if hi > lo {
        lemma_sumi_nonneg(ws, lo, hi - 1);
    }
}

pub proof fn lemma_sumi_pointwise_le(a: Seq<int>, b: Seq<int>, lo: int, hi: int)
    requires
        forall|k: int| lo <= k < hi ==> #[trigger] a[k] <= #[trigger] b[k],
    ensures
        sumi(a, lo, hi) <= sumi(b, lo, hi),
    decreases hi - lo,
{
    if hi > lo {
        lemma_sumi_pointwise_le(a, b, lo, hi - 1);
    }
}

pub proof fn lemma_sumi_update(ws: Seq<int>, lo: int, hi: int, m: int, v: int)
    requires
        0 <= lo <= m < hi,
        hi <= ws.len(),
    ensures
        sumi(ws.update(m, v), lo, hi) == sumi(ws, lo, hi) - ws[m] + v,
    decreases hi - lo,
{
    if m == hi - 1 {
        assert(forall|k: int| lo <= k < hi - 1 ==> #[trigger] ws.update(m, v)[k] == ws[k]);
        lemma_sumi_same(ws.update(m, v), ws, lo, hi - 1);
    } else {
        lemma_sumi_update(ws, lo, hi - 1, m, v);
    }
}

pub proof fn lemma_sumi_same(a: Seq<int>, b: Seq<int>, lo: int, hi: int)
    requires
        forall|k: int| lo <= k < hi ==> #[trigger] a[k] == b[k],
    ensures
        sumi(a, lo, hi) == sumi(b, lo, hi),
    decreases hi - lo,
{
    if hi > lo {
        lemma_sumi_same(a, b, lo, hi - 1);
    }
}

/// An element of a non-negative range is at most the range's sum.
pub proof fn lemma_sumi_elem_le(ws: Seq<int>, lo: int, hi: int, m: int)
    requires
        nonneg_in(ws, lo, hi),
        lo <= m < hi,
    ensures
        ws[m] <= sumi(ws, lo, hi),
    decreases hi - lo,
{
    if m == hi - 1 {
        lemma_sumi_nonneg(ws, lo, hi - 1);
    } else {
        lemma_sumi_elem_le(ws, lo, hi - 1, m);
    }
}

/// A prefix of a non-negative range sums to at most the whole range.
pub proof fn lemma_sumi_prefix_le(ws: Seq<int>, lo: int, mid: int, hi: int)
    requires
        nonneg_in(ws, lo, hi),
        lo <= mid <= hi,
    ensures
        sumi(ws, lo, mid) <= sumi(ws, lo, hi),
    decreases hi - mid,
{
    if mid < hi {
        lemma_sumi_prefix_le(ws, lo, mid + 1, hi);
    }
}

/// A subrange of a non-negative range sums to at most the whole range.
pub proof fn lemma_sumi_subrange_le(ws: Seq<int>, lo: int, a: int, b: int, hi: int)
    requires
        nonneg_in(ws, lo, hi),
        lo <= a <= b <= hi,
    ensures
        sumi(ws, a, b) <= sumi(ws, lo, hi),
    decreases a - lo,
{
    if a == lo {
        lemma_sumi_prefix_le(ws, lo, b, hi);
    } else {
        lemma_sumi_subrange_le(ws, lo + 1, a, b, hi);
        lemma_sumi_front(ws, lo, hi);
    }
}

/// Splitting one element off the front of a sum.
pub proof fn lemma_sumi_front(ws: Seq<int>, lo: int, hi: int)
    requires
        lo < hi,
    ensures
        sumi(ws, lo, hi) == ws[lo] + sumi(ws, lo + 1, hi),
    decreases hi - lo,
{
    if lo + 1 < hi {
        lemma_sumi_front(ws, lo, hi - 1);
        assert(sumi(ws, lo, hi) == sumi(ws, lo, hi - 1) + ws[hi - 1]);
        assert(sumi(ws, lo + 1, hi) == sumi(ws, lo + 1, hi - 1) + ws[hi - 1]);
    } else {
        assert(sumi(ws, lo, hi) == sumi(ws, lo, lo) + ws[lo]);
        assert(sumi(ws, lo + 1, hi) == 0);
    }
}

/// The first minimum lies in range, is minimal, and is the earliest such.
pub proof fn lemma_argmin_props(ws: Seq<int>, lo: int, hi: int)
    requires
        lo < hi,
    ensures
        lo <= argmin_in(ws, lo, hi) < hi,
        forall|k: int| lo <= k < hi ==> ws[argmin_in(ws, lo, hi)] <= #[trigger] ws[k],
        forall|k: int| lo <= k < argmin_in(ws, lo, hi) ==> #[trigger] ws[k] > ws[argmin_in(ws, lo, hi)],
    decreases hi - lo,
{
    if lo + 1 < hi {
        lemma_argmin_props(ws, lo + 1, hi);
    }
}

/// Applying a span never shrinks a width.
pub proof fn lemma_bump_ge(ws: Seq<int>, lo: int, hi: int, req: int)
    requires
        0 <= lo < hi <= ws.len(),
    ensures
        bump(ws, lo, hi, req).len() == ws.len(),
        forall|k: int| 0 <= k < ws.len() ==> #[trigger] bump(ws, lo, hi, req)[k] >= ws[k],
        forall|k: int|
            0 <= k < ws.len() && !(lo <= k < hi) ==> #[trigger] bump(ws, lo, hi, req)[k] == ws[k],
{
    if sumi(ws, lo, hi) < req {
        lemma_argmin_props(ws, lo, hi);
    }
}

/// After a span is applied, its covered range sums to at least its need.
pub proof fn lemma_bump_sum_ge(ws: Seq<int>, lo: int, hi: int, req: int)
    requires
        0 <= lo < hi <= ws.len(),
    ensures
        sumi(bump(ws, lo, hi, req), lo, hi) >= req,
{
    let t = sumi(ws, lo, hi);
    if t < req {
        let m = argmin_in(ws, lo, hi);
        lemma_argmin_props(ws, lo, hi);
        lemma_sumi_update(ws, lo, hi, m, ws[m] + (req - t));
    }
}

} // verus!


verus! {

pub proof fn lemma_as_ints_push(s: Seq<usize>, v: usize)
    ensures
        as_ints(s.push(v)) == as_ints(s).push(v as int),
{
    assert(as_ints(s.push(v)) =~= as_ints(s).push(v as int));
}

pub proof fn lemma_as_ints_update(s: Seq<usize>, m: int, v: usize)
    requires
        0 <= m < s.len(),
    ensures
        as_ints(s.update(m, v)) == as_ints(s).update(m, v as int),
{
    assert(as_ints(s.update(m, v)) =~= as_ints(s).update(m, v as int));
}

pub proof fn lemma_as_ints_nonneg(s: Seq<usize>)
    ensures
        nonneg_in(as_ints(s), 0, s.len() as int),
        forall|k: int| 0 <= k < s.len() ==> #[trigger] as_ints(s)[k] == s[k] as int,
{
}

pub proof fn lemma_nat_w_upto_nonneg(recs: Records, cfg: Config, c: int, k: int)
    ensures
        nat_w_upto(recs, cfg, c, k) >= 0,
    decreases k,
{
    if k > 0 {
        lemma_nat_w_upto_nonneg(recs, cfg, c, k - 1);
    }
}

pub proof fn lemma_nat_h_upto_nonneg(recs: Records, cfg: Config, r: int, k: int)
    ensures
        nat_h_upto(recs, cfg, r, k) >= 0,
    decreases k,
{
    if k > 0 {
        lemma_nat_h_upto_nonneg(recs, cfg, r, k - 1);
    }
}

/// A single-column anchor's requirement is within its column's natural width.
pub proof fn lemma_nat_w_upto_ge(recs: Records, cfg: Config, c: int, r: int, k: int)
    requires
        0 <= r < k,
        w_anchor(cfg.spans@, r, c),
    ensures
        nat_w_upto(recs, cfg, c, k) >= cell_req_w(recs, cfg, r, c),
    decreases k,
{
    if r < k - 1 {
        lemma_nat_w_upto_ge(recs, cfg, c, r, k - 1);
    }
}

/// A single-row anchor's requirement is within its row's natural height.
pub proof fn lemma_nat_h_upto_ge(recs: Records, cfg: Config, r: int, c: int, k: int)
    requires
        0 <= c < k,
        h_anchor(cfg.spans@, r, c),
    ensures
        nat_h_upto(recs, cfg, r, k) >= cell_req_h(recs, cfg, r, c),
    decreases k,
{
    if c < k - 1 {
        lemma_nat_h_upto_ge(recs, cfg, r, c, k - 1);
    }
}

/// Shape facts about every width stage: its length is the column count,
/// entries are non-negative, and no stage is below the natural width.
pub proof fn lemma_widths_step_wf(recs: Records, cfg: Config, k: int)
    requires
        spans_wf(cfg.spans@, recs.nrows(), recs.ncols()),
        0 <= k <= cfg.spans@.len(),
    ensures
        widths_step(recs, cfg, k).len() == recs.ncols(),
        forall|c: int|
            0 <= c < recs.ncols() ==> #[trigger] widths_step(recs, cfg, k)[c] >= natural_w(
                recs,
                cfg,
                c,
            ),
        nonneg_in(widths_step(recs, cfg, k), 0, recs.ncols()),
    decreases k,
{
    if k == 0 {
        assert forall|c: int| 0 <= c < recs.ncols() implies #[trigger] widths_step(recs, cfg, 0)[c]
            >= natural_w(recs, cfg, c) && widths_step(recs, cfg, 0)[c] >= 0 by {
            lemma_nat_w_upto_nonneg(recs, cfg, c, recs.nrows());
        }
    } else {
        lemma_widths_step_wf(recs, cfg, k - 1);
        let s = cfg.spans@[k - 1];
        lemma_bump_ge(
            widths_step(recs, cfg, k - 1),
            s.col as int,
            s.col + s.cols,
            cell_req_w(recs, cfg, s.row as int, s.col as int),
        );
    }
}

/// Shape facts about every height stage.
pub proof fn lemma_heights_step_wf(recs: Records, cfg: Config, k: int)
    requires
        spans_wf(cfg.spans@, recs.nrows(), recs.ncols()),
        0 <= k <= cfg.spans@.len(),
    ensures
        heights_step(recs, cfg, k).len() == recs.nrows(),
        forall|r: int|
            0 <= r < recs.nrows() ==> #[trigger] heights_step(recs, cfg, k)[r] >= natural_h(
                recs,
                cfg,
                r,
            ),
        nonneg_in(heights_step(recs, cfg, k), 0, recs.nrows()),
    decreases k,
{
    if k == 0 {
        assert forall|r: int| 0 <= r < recs.nrows() implies #[trigger] heights_step(recs, cfg, 0)[r]
            >= natural_h(recs, cfg, r) && heights_step(recs, cfg, 0)[r] >= 0 by {
            lemma_nat_h_upto_nonneg(recs, cfg, r, recs.ncols());
        }
    } else {
        lemma_heights_step_wf(recs, cfg, k - 1);
        let s = cfg.spans@[k - 1];
        lemma_bump_ge(
            heights_step(recs, cfg, k - 1),
            s.row as int,
            s.row + s.rows,
            cell_req_h(recs, cfg, s.row as int, s.col as int),
        );
    }
}

/// Later stages never shrink a width.
pub proof fn lemma_widths_step_mono(recs: Records, cfg: Config, k1: int, k2: int)
    requires
        spans_wf(cfg.spans@, recs.nrows(), recs.ncols()),
        0 <= k1 <= k2 <= cfg.spans@.len(),
    ensures
        forall|c: int|
            0 <= c < recs.ncols() ==> #[trigger] widths_step(recs, cfg, k1)[c] <= widths_step(
                recs,
                cfg,
                k2,
            )[c],
    decreases k2 - k1,
{
    if k1 < k2 {
        lemma_widths_step_mono(recs, cfg, k1, k2 - 1);
        lemma_widths_step_wf(recs, cfg, k2 - 1);
        let s = cfg.spans@[k2 - 1];
        lemma_bump_ge(
            widths_step(recs, cfg, k2 - 1),
            s.col as int,
            s.col + s.cols,
            cell_req_w(recs, cfg, s.row as int, s.col as int),
        );
    }
}

/// Later stages never shrink a height.
pub proof fn lemma_heights_step_mono(recs: Records, cfg: Config, k1: int, k2: int)
    requires
        spans_wf(cfg.spans@, recs.nrows(), recs.ncols()),
        0 <= k1 <= k2 <= cfg.spans@.len(),
    ensures
        forall|r: int|
            0 <= r < recs.nrows() ==> #[trigger] heights_step(recs, cfg, k1)[r] <= heights_step(
                recs,
                cfg,
                k2,
            )[r],
    decreases k2 - k1,
{
    if k1 < k2 {
        lemma_heights_step_mono(recs, cfg, k1, k2 - 1);
        lemma_heights_step_wf(recs, cfg, k2 - 1);
        let s = cfg.spans@[k2 - 1];
        lemma_bump_ge(
            heights_step(recs, cfg, k2 - 1),
            s.row as int,
            s.row + s.rows,
            cell_req_h(recs, cfg, s.row as int, s.col as int),
        );
    }
}

/// The columns covered by a span always add up to at least the width the
/// span's own cell requires.
pub proof fn lemma_span_width_satisfied(recs: Records, cfg: Config, i: int)
    requires
        spans_wf(cfg.spans@, recs.nrows(), recs.ncols()),
        0 <= i < cfg.spans@.len(),
    ensures
        sumi(
            spec_widths(recs, cfg),
            cfg.spans@[i].col as int,
            cfg.spans@[i].col + cfg.spans@[i].cols,
        ) >= cell_req_w(recs, cfg, cfg.spans@[i].row as int, cfg.spans@[i].col as int),
{
    let s = cfg.spans@[i];
    let lo = s.col as int;
    let hi = s.col + s.cols;
    let req = cell_req_w(recs, cfg, s.row as int, s.col as int);
    let n = cfg.spans@.len() as int;
    lemma_widths_step_wf(recs, cfg, i);
    lemma_bump_sum_ge(widths_step(recs, cfg, i), lo, hi, req);
    lemma_widths_step_mono(recs, cfg, i + 1, n);
    lemma_sumi_pointwise_le(widths_step(recs, cfg, i + 1), spec_widths(recs, cfg), lo, hi);
}

/// The rows covered by a span always add up to at least the height the
/// span's own cell requires.
pub proof fn lemma_span_height_satisfied(recs: Records, cfg: Config, i: int)
    requires
        spans_wf(cfg.spans@, recs.nrows(), recs.ncols()),
        0 <= i < cfg.spans@.len(),
    ensures
        sumi(
            spec_heights(recs, cfg),
            cfg.spans@[i].row as int,
            cfg.spans@[i].row + cfg.spans@[i].rows,
        ) >= cell_req_h(recs, cfg, cfg.spans@[i].row as int, cfg.spans@[i].col as int),
{
    let s = cfg.spans@[i];
    let lo = s.row as int;
    let hi = s.row + s.rows;
    let req = cell_req_h(recs, cfg, s.row as int, s.col as int);
    let n = cfg.spans@.len() as int;
    lemma_heights_step_wf(recs, cfg, i);
    lemma_bump_sum_ge(heights_step(recs, cfg, i), lo, hi, req);
    lemma_heights_step_mono(recs, cfg, i + 1, n);
    lemma_sumi_pointwise_le(heights_step(recs, cfg, i + 1), spec_heights(recs, cfg), lo, hi);
}

} // verus!

verus! {

/// Sums a range of stored widths or heights.
pub fn sum_range(vals: &Vec<usize>, lo: usize, hi: usize) -> (t: usize)
    requires
        lo <= hi,
        hi <= vals@.len(),
        sumi(as_ints(vals@), lo as int, hi as int) <= usize::MAX as int,
    ensures
        t as int == sumi(as_ints(vals@), lo as int, hi as int),
{
    let ghost ws = as_ints(vals@);
    proof {
        lemma_as_ints_nonneg(vals@);
    }
    let mut t: usize = 0;
    let mut i: usize = lo;
    while i < hi
        invariant
            lo <= i <= hi <= vals@.len(),
            ws == as_ints(vals@),
            nonneg_in(ws, 0, vals@.len() as int),
            sumi(ws, lo as int, hi as int) <= usize::MAX as int,
            t as int == sumi(ws, lo as int, i as int),
        decreases hi - i,
    {
        proof {
            assert(nonneg_in(ws, lo as int, hi as int));
            lemma_sumi_prefix_le(ws, lo as int, i + 1, hi as int);
            assert(sumi(ws, lo as int, i + 1) == sumi(ws, lo as int, i as int) + ws[i as int]);
        }
        t = t + vals[i];
        i = i + 1;
    }
    t
}

/// Enlarges the first narrowest entry of `vals[lo..hi]` in place so the
/// range sums to at least `req`; leaves it alone when it already does.
pub fn bump_in_place(vals: &mut Vec<usize>, lo: usize, hi: usize, req: usize)
    requires
        lo < hi,
        hi <= old(vals)@.len(),
        sumi(as_ints(old(vals)@), lo as int, hi as int) <= usize::MAX as int,
    ensures
        final(vals)@.len() == old(vals)@.len(),
        as_ints(final(vals)@) == bump(as_ints(old(vals)@), lo as int, hi as int, req as int),
{
    let ghost ws = as_ints(old(vals)@);
    proof {
        lemma_as_ints_nonneg(old(vals)@);
    }
    let t = sum_range(vals, lo, hi);
    if t >= req {
        return ;
    }
    let mut m: usize = lo;
    let mut i: usize = lo + 1;
    while i < hi
        invariant
            lo <= m < i <= hi <= vals@.len(),
            ws == as_ints(vals@),
            forall|k: int| lo <= k < i ==> ws[m as int] <= #[trigger] ws[k],
            forall|k: int| lo <= k < m ==> #[trigger] ws[k] > ws[m as int],
        decreases hi - i,
    {
        if vals[i] < vals[m] {
            m = i;
        }
        i = i + 1;
    }
    proof {
        lemma_argmin_props(ws, lo as int, hi as int);
        let a = argmin_in(ws, lo as int, hi as int);
        if a < m {
            assert(ws[a] > ws[m as int]);
            assert(ws[a] <= ws[m as int]);
        }
        if m < a {
            assert(ws[m as int] > ws[a]);
            assert(ws[a] <= ws[m as int]);
        }
        assert(a == m as int);
        lemma_sumi_elem_le(ws, lo as int, hi as int, m as int);
    }
    let deficit = req - t;
    let nv = vals[m] + deficit;
    vals[m] = nv;
    proof {
        lemma_as_ints_update(old(vals)@, m as int, nv);
    }
}

/// Computes the dimension table: a rendered width for every column and a
/// rendered height for every row, natural sizes first and then every span
/// applied in list order.
pub fn estimate(recs: &Records, cfg: &Config) -> (dims: Dimensions)
    requires
        recs.rectangular(),
        spans_wf(cfg.spans@, recs.nrows(), recs.ncols()),
        dims_fit(*recs, *cfg),
    ensures
        dims.widths@.len() as int == recs.ncols(),
        dims.heights@.len() as int == recs.nrows(),
        as_ints(dims.widths@) == spec_widths(*recs, *cfg),
        as_ints(dims.heights@) == spec_heights(*recs, *cfg),
{
    let nrows = recs.row_count();
    let ncols = recs.col_count();
    let nspans = cfg.spans.len();

    let mut widths: Vec<usize> = Vec::new();
    let mut c: usize = 0;
    while c < ncols
        invariant
            c <= ncols,
            nrows as int == recs.nrows(),
            ncols as int == recs.ncols(),
            recs.rectangular(),
            spans_wf(cfg.spans@, recs.nrows(), recs.ncols()),
            dims_fit(*recs, *cfg),
            widths@.len() == c,
            forall|j: int| 0 <= j < c ==> #[trigger] as_ints(widths@)[j] == natural_w(*recs, *cfg, j),
        decreases ncols - c,
    {
        let mut w: usize = 0;
        let mut r: usize = 0;
        while r < nrows
            invariant
                r <= nrows,
                c < ncols,
                nrows as int == recs.nrows(),
                ncols as int == recs.ncols(),
                recs.rectangular(),
                spans_wf(cfg.spans@, recs.nrows(), recs.ncols()),
                dims_fit(*recs, *cfg),
                w as int == nat_w_upto(*recs, *cfg, c as int, r as int),
            decreases nrows - r,
        {
            let cover = find_cover(&cfg.spans, nrows, ncols, r, c);
            let a1: bool = match cover {
                Option::None => true,
                Option::Some(s) => s.row == r && s.col == c && s.cols == 1,
            };
            proof {
                assert(a1 == w_anchor(cfg.spans@, r as int, c as int));
            }
            if a1 {
                proof {
                    lemma_nat_w_upto_ge(*recs, *cfg, c as int, r as int, recs.nrows());
                    lemma_widths_step_wf(*recs, *cfg, cfg.spans@.len() as int);
                    lemma_sumi_elem_le(spec_widths(*recs, *cfg), 0, recs.ncols(), c as int);
                    assert(cell_req_w(*recs, *cfg, r as int, c as int) <= usize::MAX as int);
                }
                let cell = &recs.rows[r][c];
                let tw = cell.text_width();
                let k = cfg.resolve(Position { row: r, col: c });
                let req = tw + k.pad_left + k.pad_right;
                proof {
                    assert(req as int == cell_req_w(*recs, *cfg, r as int, c as int));
                }
                if req > w {
                    w = req;
                }
            }
            r = r + 1;
        }
        proof {
            lemma_as_ints_push(widths@, w);
        }
        widths.push(w);
        c = c + 1;
    }
    proof {
        assert(as_ints(widths@) =~= natural_widths(*recs, *cfg));
        assert(widths_step(*recs, *cfg, 0) == natural_widths(*recs, *cfg));
    }

    let mut k: usize = 0;
    while k < nspans
        invariant
            k <= nspans,
            nspans == cfg.spans@.len(),
            nrows as int == recs.nrows(),
            ncols as int == recs.ncols(),
            recs.rectangular(),
            spans_wf(cfg.spans@, recs.nrows(), recs.ncols()),
            dims_fit(*recs, *cfg),
            widths@.len() as int == recs.ncols(),
            as_ints(widths@) == widths_step(*recs, *cfg, k as int),
        decreases nspans - k,
    {
        let s = cfg.spans[k];
        let ghost stage = widths_step(*recs, *cfg, k as int);
        let ghost lo = s.col as int;
        let ghost hi = s.col + s.cols;
        let ghost reqw = cell_req_w(*recs, *cfg, s.row as int, s.col as int);
        proof {
            assert(cfg.spans@[k as int] == s);
            lemma_widths_step_wf(*recs, *cfg, k as int);
            lemma_widths_step_wf(*recs, *cfg, cfg.spans@.len() as int);
            lemma_widths_step_mono(*recs, *cfg, k as int, cfg.spans@.len() as int);
            lemma_sumi_pointwise_le(stage, spec_widths(*recs, *cfg), lo, hi);
            lemma_sumi_subrange_le(spec_widths(*recs, *cfg), 0, lo, hi, recs.ncols());
            assert(sumi(stage, lo, hi) <= usize::MAX as int);
            lemma_bump_sum_ge(stage, lo, hi, reqw);
            lemma_widths_step_mono(*recs, *cfg, k + 1, cfg.spans@.len() as int);
            lemma_sumi_pointwise_le(
                widths_step(*recs, *cfg, k + 1),
                spec_widths(*recs, *cfg),
                lo,
                hi,
            );
            assert(reqw <= usize::MAX as int);
        }
        let cell = &recs.rows[s.row][s.col];
        let tw = cell.text_width();
        let kk = cfg.resolve(Position { row: s.row, col: s.col });
        let req = tw + kk.pad_left + kk.pad_right;
        proof {
            assert(req as int == reqw);
        }
        bump_in_place(&mut widths, s.col, s.col + s.cols, req);
        k = k + 1;
    }

    let mut heights: Vec<usize> = Vec::new();
    let mut r2: usize = 0;
    while r2 < nrows
        invariant
            r2 <= nrows,
            nrows as int == recs.nrows(),
            ncols as int == recs.ncols(),
            recs.rectangular(),
            spans_wf(cfg.spans@, recs.nrows(), recs.ncols()),
            dims_fit(*recs, *cfg),
            heights@.len() == r2,
            forall|j: int|
                0 <= j < r2 ==> #[trigger] as_ints(heights@)[j] == natural_h(*recs, *cfg, j),
        decreases nrows - r2,
    {
        let mut h: usize = 0;
        let mut c2: usize = 0;
        while c2 < ncols
            invariant
                c2 <= ncols,
                r2 < nrows,
                nrows as int == recs.nrows(),
                ncols as int == recs.ncols(),
                recs.rectangular(),
                spans_wf(cfg.spans@, recs.nrows(), recs.ncols()),
                dims_fit(*recs, *cfg),
                h as int == nat_h_upto(*recs, *cfg, r2 as int, c2 as int),
            decreases ncols - c2,
        {
            let cover = find_cover(&cfg.spans, nrows, ncols, r2, c2);
            let a1: bool = match cover {
                Option::None => true,
                Option::Some(s) => s.row == r2 && s.col == c2 && s.rows == 1,
            };
            proof {
                assert(a1 == h_anchor(cfg.spans@, r2 as int, c2 as int));
            }
            if a1 {
                proof {
                    lemma_nat_h_upto_ge(*recs, *cfg, r2 as int, c2 as int, recs.ncols());
                    lemma_heights_step_wf(*recs, *cfg, cfg.spans@.len() as int);
                    lemma_sumi_elem_le(spec_heights(*recs, *cfg), 0, recs.nrows(), r2 as int);
                    assert(cell_req_h(*recs, *cfg, r2 as int, c2 as int) <= usize::MAX as int);
                }
                let cell = &recs.rows[r2][c2];
                let th = cell.lines.len();
                let k3 = cfg.resolve(Position { row: r2, col: c2 });
                let req = th + k3.pad_top + k3.pad_bottom;
                proof {
                    assert(req as int == cell_req_h(*recs, *cfg, r2 as int, c2 as int));
                }
                if req > h {
                    h = req;
                }
            }
            c2 = c2 + 1;
        }
        proof {
            lemma_as_ints_push(heights@, h);
        }
        heights.push(h);
        r2 = r2 + 1;
    }
    proof {
        assert(as_ints(heights@) =~= natural_heights(*recs, *cfg));
        assert(heights_step(*recs, *cfg, 0) == natural_heights(*recs, *cfg));
    }

    let mut k2: usize = 0;
    while k2 < nspans
        invariant
            k2 <= nspans,
            nspans == cfg.spans@.len(),
            nrows as int == recs.nrows(),
            ncols as int == recs.ncols(),
            recs.rectangular(),
            spans_wf(cfg.spans@, recs.nrows(), recs.ncols()),
            dims_fit(*recs, *cfg),
            heights@.len() as int == recs.nrows(),
            as_ints(heights@) == heights_step(*recs, *cfg, k2 as int),
        decreases nspans - k2,
    {
        let s = cfg.spans[k2];
        let ghost stage = heights_step(*recs, *cfg, k2 as int);
        let ghost lo = s.row as int;
        let ghost hi = s.row + s.rows;
        let ghost reqh = cell_req_h(*recs, *cfg, s.row as int, s.col as int);
        proof {
            assert(cfg.spans@[k2 as int] == s);
            lemma_heights_step_wf(*recs, *cfg, k2 as int);
            lemma_heights_step_wf(*recs, *cfg, cfg.spans@.len() as int);
            lemma_heights_step_mono(*recs, *cfg, k2 as int, cfg.spans@.len() as int);
            lemma_sumi_pointwise_le(stage, spec_heights(*recs, *cfg), lo, hi);
            lemma_sumi_subrange_le(spec_heights(*recs, *cfg), 0, lo, hi, recs.nrows());
            assert(sumi(stage, lo, hi) <= usize::MAX as int);
            lemma_bump_sum_ge(stage, lo, hi, reqh);
            lemma_heights_step_mono(*recs, *cfg, k2 + 1, cfg.spans@.len() as int);
            lemma_sumi_pointwise_le(
                heights_step(*recs, *cfg, k2 + 1),
                spec_heights(*recs, *cfg),
                lo,
                hi,
            );
            assert(reqh <= usize::MAX as int);
        }
        let cell = &recs.rows[s.row][s.col];
        let th = cell.lines.len();
        let kk = cfg.resolve(Position { row: s.row, col: s.col });
        let req = th + kk.pad_top + kk.pad_bottom;
        proof {
            assert(req as int == reqh);
        }
        bump_in_place(&mut heights, s.row, s.row + s.rows, req);
        k2 = k2 + 1;
    }

    Dimensions { widths, heights }
}

} // verus!

verus! {

/// The natural width of a column is attained by some single-column
/// anchor cell, unless no such anchor exists and it is zero.
pub proof fn lemma_nat_w_attained(recs: Records, cfg: Config, c: int, k: int)
    ensures
        nat_w_upto(recs, cfg, c, k) == 0 || exists|r: int|
            0 <= r < k && w_anchor(cfg.spans@, r, c) && cell_req_w(recs, cfg, r, c) == nat_w_upto(
                recs,
                cfg,
                c,
                k,
            ),
    decreases k,
{
    if k > 0 {
        lemma_nat_w_attained(recs, cfg, c, k - 1);
    }
}

/// With no effective spans — none at all, or only trivial one-by-one
/// merges — the dimension table is exactly the natural sizes: every
/// column width is the maximum padded content width among the cells
/// anchored in it, and every row height the maximum padded content
/// height.
pub proof fn lemma_no_spans_natural(recs: Records, cfg: Config)
    requires
        spans_wf(cfg.spans@, recs.nrows(), recs.ncols()),
        forall|i: int|
            0 <= i < cfg.spans@.len() ==> (#[trigger] cfg.spans@[i]).rows == 1
                && cfg.spans@[i].cols == 1,
    ensures
        spec_widths(recs, cfg) == natural_widths(recs, cfg),
        spec_heights(recs, cfg) == natural_heights(recs, cfg),
{
    lemma_no_spans_step(recs, cfg, cfg.spans@.len() as int);
}

proof fn lemma_no_spans_step(recs: Records, cfg: Config, k: int)
    requires
        spans_wf(cfg.spans@, recs.nrows(), recs.ncols()),
        forall|i: int|
            0 <= i < cfg.spans@.len() ==> (#[trigger] cfg.spans@[i]).rows == 1
                && cfg.spans@[i].cols == 1,
        0 <= k <= cfg.spans@.len(),
    ensures
        widths_step(recs, cfg, k) == natural_widths(recs, cfg),
        heights_step(recs, cfg, k) == natural_heights(recs, cfg),
    decreases k,
{
    if k > 0 {
        lemma_no_spans_step(recs, cfg, k - 1);
        let s = cfg.spans@[k - 1];
        let ws = widths_step(recs, cfg, k - 1);
        let hs = heights_step(recs, cfg, k - 1);
        assert(span_covers(s, s.row as int, s.col as int));
        assert(covered_by(cfg.spans@, s.row as int, s.col as int));
        lemma_cover_unique(
            cfg.spans@,
            recs.nrows(),
            recs.ncols(),
            k - 1,
            cover_idx(cfg.spans@, s.row as int, s.col as int),
            s.row as int,
            s.col as int,
        );
        assert(region_of(cfg.spans@, s.row as int, s.col as int) == s);
        assert(w_anchor(cfg.spans@, s.row as int, s.col as int));
        assert(h_anchor(cfg.spans@, s.row as int, s.col as int));
        lemma_nat_w_upto_ge(recs, cfg, s.col as int, s.row as int, recs.nrows());
        lemma_nat_h_upto_ge(recs, cfg, s.row as int, s.col as int, recs.ncols());
        assert(sumi(ws, s.col as int, s.col + 1) == sumi(ws, s.col as int, s.col as int)
            + ws[s.col as int]);
        assert(ws[s.col as int] == natural_w(recs, cfg, s.col as int));
        assert(sumi(ws, s.col as int, s.col + 1) >= cell_req_w(
            recs,
            cfg,
            s.row as int,
            s.col as int,
        ));
        assert(sumi(hs, s.row as int, s.row + 1) == sumi(hs, s.row as int, s.row as int)
            + hs[s.row as int]);
        assert(hs[s.row as int] == natural_h(recs, cfg, s.row as int));
        assert(sumi(hs, s.row as int, s.row + 1) >= cell_req_h(
            recs,
            cfg,
            s.row as int,
            s.col as int,
        ));
    }
}

} // verus!

verus! {

pub proof fn lemma_max_line_width_nonneg(lines: Seq<Vec<char>>, k: int)
    ensures
        crate::grid::max_line_width(lines, k) >= 0,
    decreases k,
{
    if k > 0 {
        lemma_max_line_width_nonneg(lines, k - 1);
    }
}

/// Every cell requirement is non-negative.
pub proof fn lemma_cell_req_nonneg(recs: Records, cfg: Config, r: int, c: int)
    ensures
        cell_req_w(recs, cfg, r, c) >= 0,
        cell_req_h(recs, cfg, r, c) >= 0,
{
    lemma_max_line_width_nonneg(
        recs.cell(r, c).lines@,
        recs.cell(r, c).lines@.len() as int,
    );
}

/// The sum of the width requirements of the first `k` spans.
pub open spec fn reqs_w_upto(recs: Records, cfg: Config, k: int) -> int
    decreases k,
{
    if k <= 0 {
        0
    } else {
        reqs_w_upto(recs, cfg, k - 1) + cell_req_w(
            recs,
            cfg,
            cfg.spans@[k - 1].row as int,
            cfg.spans@[k - 1].col as int,
        )
    }
}

/// The sum of the height requirements of the first `k` spans.
pub open spec fn reqs_h_upto(recs: Records, cfg: Config, k: int) -> int
    decreases k,
{
    if k <= 0 {
        0
    } else {
        reqs_h_upto(recs, cfg, k - 1) + cell_req_h(
            recs,
            cfg,
            cfg.spans@[k - 1].row as int,
            cfg.spans@[k - 1].col as int,
        )
    }
}

/// Each span enlarges the table total by at most its own requirement, so
/// the natural total plus all span requirements bounds the final total.
pub proof fn lemma_width_total_bound(recs: Records, cfg: Config, k: int)
    requires
        spans_wf(cfg.spans@, recs.nrows(), recs.ncols()),
        0 <= k <= cfg.spans@.len(),
    ensures
        sumi(widths_step(recs, cfg, k), 0, recs.ncols()) <= sumi(
            natural_widths(recs, cfg),
            0,
            recs.ncols(),
        ) + reqs_w_upto(recs, cfg, k),
    decreases k,
{
    if k > 0 {
        lemma_width_total_bound(recs, cfg, k - 1);
        let s = cfg.spans@[k - 1];
        let ws = widths_step(recs, cfg, k - 1);
        let req = cell_req_w(recs, cfg, s.row as int, s.col as int);
        let lo = s.col as int;
        let hi = s.col + s.cols;
        lemma_widths_step_wf(recs, cfg, k - 1);
        lemma_cell_req_nonneg(recs, cfg, s.row as int, s.col as int);
        let t = sumi(ws, lo, hi);
        if t < req {
            let m = argmin_in(ws, lo, hi);
            lemma_argmin_props(ws, lo, hi);
            lemma_sumi_update(ws, 0, recs.ncols(), m, ws[m] + (req - t));
            assert(nonneg_in(ws, lo, hi));
            lemma_sumi_nonneg(ws, lo, hi);
        }
    }
}

pub proof fn lemma_height_total_bound(recs: Records, cfg: Config, k: int)
    requires
        spans_wf(cfg.spans@, recs.nrows(), recs.ncols()),
        0 <= k <= cfg.spans@.len(),
    ensures
        sumi(heights_step(recs, cfg, k), 0, recs.nrows()) <= sumi(
            natural_heights(recs, cfg),
            0,
            recs.nrows(),
        ) + reqs_h_upto(recs, cfg, k),
    decreases k,
{
    if k > 0 {
        lemma_height_total_bound(recs, cfg, k - 1);
        let s = cfg.spans@[k - 1];
        let hs = heights_step(recs, cfg, k - 1);
        let req = cell_req_h(recs, cfg, s.row as int, s.col as int);
        let lo = s.row as int;
        let hi = s.row + s.rows;
        lemma_heights_step_wf(recs, cfg, k - 1);
        lemma_cell_req_nonneg(recs, cfg, s.row as int, s.col as int);
        let t = sumi(hs, lo, hi);
        if t < req {
            let m = argmin_in(hs, lo, hi);
            lemma_argmin_props(hs, lo, hi);
            lemma_sumi_update(hs, 0, recs.nrows(), m, hs[m] + (req - t));
            assert(nonneg_in(hs, lo, hi));
            lemma_sumi_nonneg(hs, lo, hi);
        }
    }
}

} // verus!

verus! {

/// A conservative, executable test of the machine limit `dims_fit`: the
/// natural totals plus every span's own requirement bound the final
/// totals, so when that bound fits a machine word the layout does too.
/// A `false` answer makes no promise either way.
pub fn layout_within_limits(recs: &Records, cfg: &Config) -> (b: bool)
    requires
        recs.rectangular(),
        spans_wf(cfg.spans@, recs.nrows(), recs.ncols()),
    ensures
        b ==> dims_fit(*recs, *cfg),
{
    let nrows = recs.row_count();
    let ncols = recs.col_count();
    let nspans = cfg.spans.len();
    let limit: u128 = usize::MAX as u128;

    let mut acc_w: u128 = 0;
    let mut c: usize = 0;
    while c < ncols
        invariant
            c <= ncols,
            nrows as int == recs.nrows(),
            ncols as int == recs.ncols(),
            recs.rectangular(),
            spans_wf(cfg.spans@, recs.nrows(), recs.ncols()),
            limit == usize::MAX as u128,
            acc_w <= limit,
            acc_w as int == sumi(natural_widths(*recs, *cfg), 0, c as int),
        decreases ncols - c,
    {
        let mut w: u128 = 0;
        let mut r: usize = 0;
        while r < nrows
            invariant
                r <= nrows,
                c < ncols,
                nrows as int == recs.nrows(),
                ncols as int == recs.ncols(),
                recs.rectangular(),
                spans_wf(cfg.spans@, recs.nrows(), recs.ncols()),
                w <= 3 * (usize::MAX as u128),
                w as int == nat_w_upto(*recs, *cfg, c as int, r as int),
            decreases nrows - r,
        {
            let cover = find_cover(&cfg.spans, nrows, ncols, r, c);
            let a1: bool = match cover {
                Option::None => true,
                Option::Some(s) => s.row == r && s.col == c && s.cols == 1,
            };
            proof {
                assert(a1 == w_anchor(cfg.spans@, r as int, c as int));
            }
            if a1 {
                let cell = &recs.rows[r][c];
                let tw = cell.text_width();
                let k = cfg.resolve(Position { row: r, col: c });
                let req: u128 = tw as u128 + k.pad_left as u128 + k.pad_right as u128;
                proof {
                    assert(req as int == cell_req_w(*recs, *cfg, r as int, c as int));
                }
                if req > w {
                    w = req;
                }
            }
            r = r + 1;
        }
        if w > limit {
            return false;
        }
        if acc_w > limit - w {
            return false;
        }
        acc_w = acc_w + w;
        proof {
            assert(natural_widths(*recs, *cfg)[c as int] == natural_w(*recs, *cfg, c as int));
            assert(sumi(natural_widths(*recs, *cfg), 0, c + 1) == sumi(
                natural_widths(*recs, *cfg),
                0,
                c as int,
            ) + natural_widths(*recs, *cfg)[c as int]);
        }
        c = c + 1;
    }

    let mut acc_h: u128 = 0;
    let mut r2: usize = 0;
    while r2 < nrows
        invariant
            r2 <= nrows,
            nrows as int == recs.nrows(),
            ncols as int == recs.ncols(),
            recs.rectangular(),
            spans_wf(cfg.spans@, recs.nrows(), recs.ncols()),
            limit == usize::MAX as u128,
            acc_h <= limit,
            acc_h as int == sumi(natural_heights(*recs, *cfg), 0, r2 as int),
        decreases nrows - r2,
    {
        let mut h: u128 = 0;
        let mut c2: usize = 0;
        while c2 < ncols
            invariant
                c2 <= ncols,
                r2 < nrows,
                nrows as int == recs.nrows(),
                ncols as int == recs.ncols(),
                recs.rectangular(),
                spans_wf(cfg.spans@, recs.nrows(), recs.ncols()),
                h <= 3 * (usize::MAX as u128),
                h as int == nat_h_upto(*recs, *cfg, r2 as int, c2 as int),
            decreases ncols - c2,
        {
            let cover = find_cover(&cfg.spans, nrows, ncols, r2, c2);
            let a1: bool = match cover {
                Option::None => true,
                Option::Some(s) => s.row == r2 && s.col == c2 && s.rows == 1,
            };
            proof {
                assert(a1 == h_anchor(cfg.spans@, r2 as int, c2 as int));
            }
            if a1 {
                let cell = &recs.rows[r2][c2];
                let k = cfg.resolve(Position { row: r2, col: c2 });
                let req: u128 = cell.lines.len() as u128 + k.pad_top as u128
                    + k.pad_bottom as u128;
                proof {
                    assert(req as int == cell_req_h(*recs, *cfg, r2 as int, c2 as int));
                }
                if req > h {
                    h = req;
                }
            }
            c2 = c2 + 1;
        }
        if h > limit {
            return false;
        }
        if acc_h > limit - h {
            return false;
        }
        acc_h = acc_h + h;
        proof {
            assert(natural_heights(*recs, *cfg)[r2 as int] == natural_h(*recs, *cfg, r2 as int));
            assert(sumi(natural_heights(*recs, *cfg), 0, r2 + 1) == sumi(
                natural_heights(*recs, *cfg),
                0,
                r2 as int,
            ) + natural_heights(*recs, *cfg)[r2 as int]);
        }
        r2 = r2 + 1;
    }

    let mut acc_rw: u128 = 0;
    let mut acc_rh: u128 = 0;
    let mut k: usize = 0;
    while k < nspans
        invariant
            k <= nspans,
            nspans == cfg.spans@.len(),
            nrows as int == recs.nrows(),
            ncols as int == recs.ncols(),
            recs.rectangular(),
            spans_wf(cfg.spans@, recs.nrows(), recs.ncols()),
            limit == usize::MAX as u128,
            acc_rw <= limit,
            acc_rh <= limit,
            acc_rw as int == reqs_w_upto(*recs, *cfg, k as int),
            acc_rh as int == reqs_h_upto(*recs, *cfg, k as int),
        decreases nspans - k,
    {
        let s = cfg.spans[k];
        let cell = &recs.rows[s.row][s.col];
        let tw = cell.text_width();
        let kk = cfg.resolve(Position { row: s.row, col: s.col });
        let req_w: u128 = tw as u128 + kk.pad_left as u128 + kk.pad_right as u128;
        let req_h: u128 = cell.lines.len() as u128 + kk.pad_top as u128 + kk.pad_bottom as u128;
        proof {
            assert(cfg.spans@[k as int] == s);
            assert(req_w as int == cell_req_w(*recs, *cfg, s.row as int, s.col as int));
            assert(req_h as int == cell_req_h(*recs, *cfg, s.row as int, s.col as int));
        }
        if req_w > limit || acc_rw > limit - req_w {
            return false;
        }
        if req_h > limit || acc_rh > limit - req_h {
            return false;
        }
        acc_rw = acc_rw + req_w;
        acc_rh = acc_rh + req_h;
        k = k + 1;
    }

    if acc_w > limit - acc_rw {
        return false;
    }
    if acc_h > limit - acc_rh {
        return false;
    }
    proof {
        lemma_width_total_bound(*recs, *cfg, cfg.spans@.len() as int);
        lemma_height_total_bound(*recs, *cfg, cfg.spans@.len() as int);
    }
    true
}

} // verus!
