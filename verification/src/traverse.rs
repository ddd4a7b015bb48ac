//! The grid traversal engine.
//!
//! Traversal walks the physical output lines of the grid in order: for
//! each logical row, each of its rendered lines; within a line, each
//! column left to right. A column contributes a write only when it is the
//! anchor column of its region; the write carries the region's full
//! rectangle width and the anchor cell's content, padded and aligned.
//! Every physical line ends in exactly one row-break. The result is a
//! plain instruction stream: a pure, deterministic function of the grid,
//! the configuration, the dimension table and the colors.

use vstd::prelude::*;
use crate::Position;
use crate::grid::{
    cover_idx, find_cover, span_covers,
    Cell, CellConfig, ColorMap, ColorPair, Config, HAlign, Records, SpanDesc, VAlign, covered_by,
    is_absorbed, region_of, spans_wf,
};
use crate::dimension::{
    Dimensions, as_ints, dims_fit, lemma_sumi_prefix_le, lemma_sumi_subrange_le,
    lemma_widths_step_wf, lemma_heights_step_wf, nonneg_in, spec_heights, spec_widths, sum_range,
    sumi,
};

verus! {

/// One writer-protocol instruction.
#[derive(Clone, Debug, PartialEq)]
pub enum Instr {
    /// Brackets the whole render, before any output.
    Start,
    /// Brackets the whole render, after all output.
    Finish,
    /// Prints `text` at the cursor and advances the column by `width`.
    WriteStr { text: Vec<char>, width: usize },
    /// Opens a colored run.
    ColorStart { color: ColorPair },
    /// Closes a colored run.
    ColorStop { color: ColorPair },
    /// Moves to the next output row, column zero.
    Reset,
}

/// The mathematical view of an instruction.
pub enum InstrV {
    Start,
    Finish,
    WriteStr { text: Seq<char>, width: int },
    ColorStart { color: ColorPair },
    ColorStop { color: ColorPair },
    Reset,
}

impl View for Instr {
    type V = InstrV;

    open spec fn view(&self) -> InstrV {
        match self {
            Instr::Start => InstrV::Start,
            Instr::Finish => InstrV::Finish,
            Instr::WriteStr { text, width } => InstrV::WriteStr {
                text: text@,
                width: *width as int,
            },
            Instr::ColorStart { color } => InstrV::ColorStart { color: *color },
            Instr::ColorStop { color } => InstrV::ColorStop { color: *color },
            Instr::Reset => InstrV::Reset,
        }
    }
}

/// The views of a whole instruction sequence.
pub open spec fn views(s: Seq<Instr>) -> Seq<InstrV> {
    s.map(|i: int, x: Instr| x@)
}

pub proof fn lemma_views_push(s: Seq<Instr>, x: Instr)
    ensures
        views(s.push(x)) == views(s).push(x@),
{
    assert(views(s.push(x)) =~= views(s).push(x@));
}

/// `n` blanks (none when `n` is not positive).
pub open spec fn spaces(n: int) -> Seq<char> {
    Seq::new(if n <= 0 { 0 } else { n as nat }, |i: int| ' ')
}

/// The blank run placed before content by a horizontal alignment.
pub open spec fn lead_fill(free: int, a: HAlign) -> int {
    if free <= 0 {
        0
    } else {
        match a {
            HAlign::Left => 0,
            HAlign::Center => free / 2,
            HAlign::Right => free,
        }
    }
}

/// The blank lines placed above content by a vertical alignment.
pub open spec fn top_fill(free: int, a: VAlign) -> int {
    if free <= 0 {
        0
    } else {
        match a {
            VAlign::Top => 0,
            VAlign::Center => free / 2,
            VAlign::Bottom => free,
        }
    }
}

/// One content line laid out over a rectangle width: left padding and
/// alignment fill, the content, then blank fill, truncated to the width.
pub open spec fn place_line(s: Seq<char>, w: int, pl: int, pr: int, a: HAlign) -> Seq<char> {
    let lead = pl + lead_fill(w - pl - pr - s.len(), a);
    (spaces(lead) + s + spaces(w)).take(if w <= 0 { 0 } else { w })
}

/// The rendered line of a cell's rectangle at vertical offset `voff`: the
/// matching content line when the offset falls inside the vertically
/// placed content block, blanks otherwise.
pub open spec fn cell_line(cell: Cell, k: CellConfig, w: int, h: int, voff: int) -> Seq<char> {
    let ch = cell.lines@.len() as int;
    let vstart = k.pad_top + top_fill(h - k.pad_top - k.pad_bottom - ch, k.valign);
    if vstart <= voff < vstart + ch {
        place_line(cell.lines@[voff - vstart]@, w, k.pad_left as int, k.pad_right as int, k.halign)
    } else {
        spaces(w)
    }
}

/// What column `c` contributes to physical line `l` of logical row `r`:
/// nothing unless `c` is the anchor column of its region; otherwise one
/// write of the region's rectangle line, bracketed by the anchor's color
/// when one is assigned.
pub open spec fn col_emit(
    recs: Records,
    cfg: Config,
    ws: Seq<int>,
    hs: Seq<int>,
    colors: ColorMap,
    r: int,
    l: int,
    c: int,
) -> Seq<InstrV> {
    let reg = region_of(cfg.spans@, r, c);
    if reg.col != c {
        Seq::empty()
    } else {
        let ar = reg.row as int;
        let w = sumi(ws, c, c + reg.cols);
        let h = sumi(hs, ar, ar + reg.rows);
        let voff = sumi(hs, ar, r) + l;
        let k = cfg.spec_resolve(ar, c);
        let line = cell_line(recs.cell(ar, c), k, w, h, voff);
        let wr = InstrV::WriteStr { text: line, width: w };
        match colors.spec_color_at(ar, c) {
            Option::Some(cp) => seq![
                InstrV::ColorStart { color: cp },
                wr,
                InstrV::ColorStop { color: cp },
            ],
            Option::None => seq![wr],
        }
    }
}

/// The contributions of the first `c` columns of one physical line.
pub open spec fn line_cols(
    recs: Records,
    cfg: Config,
    ws: Seq<int>,
    hs: Seq<int>,
    colors: ColorMap,
    r: int,
    l: int,
    c: int,
) -> Seq<InstrV>
    decreases c,
{
    if c <= 0 {
        Seq::empty()
    } else {
        line_cols(recs, cfg, ws, hs, colors, r, l, c - 1) + col_emit(
            recs,
            cfg,
            ws,
            hs,
            colors,
            r,
            l,
            c - 1,
        )
    }
}

/// One whole physical line: every column, then exactly one row-break.
pub open spec fn line_full(
    recs: Records,
    cfg: Config,
    ws: Seq<int>,
    hs: Seq<int>,
    colors: ColorMap,
    r: int,
    l: int,
) -> Seq<InstrV> {
    line_cols(recs, cfg, ws, hs, colors, r, l, recs.ncols()) + seq![InstrV::Reset]
}

/// The first `l` physical lines of logical row `r`.
pub open spec fn row_lines(
    recs: Records,
    cfg: Config,
    ws: Seq<int>,
    hs: Seq<int>,
    colors: ColorMap,
    r: int,
    l: int,
) -> Seq<InstrV>
    decreases l,
{
    if l <= 0 {
        Seq::empty()
    } else {
        row_lines(recs, cfg, ws, hs, colors, r, l - 1) + line_full(
            recs,
            cfg,
            ws,
            hs,
            colors,
            r,
            l - 1,
        )
    }
}

/// Everything emitted for the first `r` logical rows.
pub open spec fn rows_upto(
    recs: Records,
    cfg: Config,
    ws: Seq<int>,
    hs: Seq<int>,
    colors: ColorMap,
    r: int,
) -> Seq<InstrV>
    decreases r,
{
    if r <= 0 {
        Seq::empty()
    } else {
        rows_upto(recs, cfg, ws, hs, colors, r - 1) + row_lines(
            recs,
            cfg,
            ws,
            hs,
            colors,
            r - 1,
            hs[r - 1],
        )
    }
}

/// The whole instruction stream of one render.
pub open spec fn spec_render(
    recs: Records,
    cfg: Config,
    ws: Seq<int>,
    hs: Seq<int>,
    colors: ColorMap,
) -> Seq<InstrV> {
    seq![InstrV::Start] + rows_upto(recs, cfg, ws, hs, colors, recs.nrows()) + seq![InstrV::Finish]
}

} // verus!

verus! {

/// The blank-fill offset where one rectangle line starts its content.
pub open spec fn place_lead(s: Seq<char>, w: int, pl: int, pr: int, a: HAlign) -> int {
    pl + lead_fill(w - pl - pr - s.len(), a)
}

/// The character at offset `j` of a placed line.
pub open spec fn place_char(s: Seq<char>, w: int, pl: int, pr: int, a: HAlign, j: int) -> char {
    let lead = place_lead(s, w, pl, pr, a);
    if j < lead {
        ' '
    } else if j - lead < s.len() {
        s[j - lead]
    } else {
        ' '
    }
}

/// A placed line has exactly the rectangle width and is described
/// pointwise by `place_char`.
pub proof fn lemma_place_line_props(s: Seq<char>, w: int, pl: int, pr: int, a: HAlign)
    requires
        0 <= w,
        0 <= pl,
    ensures
        place_line(s, w, pl, pr, a).len() == w,
        forall|j: int|
            0 <= j < w ==> #[trigger] place_line(s, w, pl, pr, a)[j] == place_char(s, w, pl, pr, a, j),
{
    let lead = place_lead(s, w, pl, pr, a);
    assert(lead >= 0);
    let whole = spaces(lead) + s + spaces(w);
    assert(whole.len() == lead + s.len() + w);
    assert forall|j: int| 0 <= j < w implies #[trigger] place_line(s, w, pl, pr, a)[j] == place_char(
        s,
        w,
        pl,
        pr,
        a,
        j,
    ) by {
        assert(place_line(s, w, pl, pr, a)[j] == whole[j]);
        if j < lead {
            assert(whole[j] == spaces(lead)[j]);
        } else if j - lead < s.len() {
            assert(whole[j] == s[j - lead]);
        } else {
            assert(whole[j] == spaces(w)[j - lead - s.len()]);
        }
    }
}

/// Builds a run of blanks.
pub fn spaces_run(n: usize) -> (out: Vec<char>)
    ensures
        out@ == spaces(n as int),
{
    let mut out: Vec<char> = Vec::new();
    let mut j: usize = 0;
    while j < n
        invariant
            j == out@.len(),
            j <= n,
            forall|k: int| 0 <= k < j ==> #[trigger] out@[k] == ' ',
        decreases n - j,
    {
        out.push(' ');
        j = j + 1;
    }
    proof {
        assert(out@ =~= spaces(n as int));
    }
    out
}

/// Lays one content line out over a rectangle width.
pub fn place_line_run(s: &Vec<char>, w: usize, pl: usize, pr: usize, a: HAlign) -> (out: Vec<char>)
    ensures
        out@ == place_line(s@, w as int, pl as int, pr as int, a),
{
    let sl = s.len();
    let a1 = if w >= pl {
        w - pl
    } else {
        0
    };
    let b1 = if a1 >= pr {
        a1 - pr
    } else {
        0
    };
    let f = if b1 >= sl {
        b1 - sl
    } else {
        0
    };
    proof {
        let free = w - pl - pr - s@.len();
        assert(f as int == if free <= 0 {
            0
        } else {
            free
        });
    }
    let fill: usize = match a {
        HAlign::Left => 0,
        HAlign::Center => f / 2,
        HAlign::Right => f,
    };
    proof {
        assert(fill as int == lead_fill(w - pl - pr - s@.len(), a));
        if fill > 0 {
            assert(pl + fill <= w);
        }
    }
    let lead = pl + fill;
    let ghost target = place_line(s@, w as int, pl as int, pr as int, a);
    proof {
        lemma_place_line_props(s@, w as int, pl as int, pr as int, a);
        assert(place_lead(s@, w as int, pl as int, pr as int, a) == lead as int);
    }
    let mut out: Vec<char> = Vec::new();
    let mut j: usize = 0;
    while j < w
        invariant
            j == out@.len(),
            j <= w,
            sl == s@.len(),
            lead as int == place_lead(s@, w as int, pl as int, pr as int, a),
            target == place_line(s@, w as int, pl as int, pr as int, a),
            target.len() == w,
            forall|k: int|
                0 <= k < w ==> #[trigger] target[k] == place_char(
                    s@,
                    w as int,
                    pl as int,
                    pr as int,
                    a,
                    k,
                ),
            forall|k: int| 0 <= k < j ==> #[trigger] out@[k] == target[k],
        decreases w - j,
    {
        let ch = if j < lead {
            ' '
        } else if j - lead < sl {
            s[j - lead]
        } else {
            ' '
        };
        proof {
            assert(ch == place_char(s@, w as int, pl as int, pr as int, a, j as int));
        }
        out.push(ch);
        j = j + 1;
    }
    proof {
        assert(out@ =~= target);
    }
    out
}

/// Renders one line of a cell's rectangle.
pub fn render_cell_line(cell: &Cell, k: &CellConfig, w: usize, h: usize, voff: usize) -> (out: Vec<
    char,
>)
    ensures
        out@ == cell_line(*cell, *k, w as int, h as int, voff as int),
{
    let ch = cell.lines.len();
    let a1 = if h >= k.pad_top {
        h - k.pad_top
    } else {
        0
    };
    let b1 = if a1 >= k.pad_bottom {
        a1 - k.pad_bottom
    } else {
        0
    };
    let f = if b1 >= ch {
        b1 - ch
    } else {
        0
    };
    proof {
        let free = h - k.pad_top - k.pad_bottom - cell.lines@.len();
        assert(f as int == if free <= 0 {
            0
        } else {
            free
        });
    }
    let fill: usize = match k.valign {
        VAlign::Top => 0,
        VAlign::Center => f / 2,
        VAlign::Bottom => f,
    };
    proof {
        assert(fill as int == top_fill(
            h - k.pad_top - k.pad_bottom - cell.lines@.len(),
            k.valign,
        ));
        if fill > 0 {
            assert(k.pad_top + fill <= h);
        }
    }
    let vstart = k.pad_top + fill;
    if voff >= vstart && voff - vstart < ch {
        let line = &cell.lines[voff - vstart];
        place_line_run(line, w, k.pad_left, k.pad_right, k.halign)
    } else {
        spaces_run(w)
    }
}

} // verus!

verus! {

/// Walks the grid in output order and emits the full instruction stream:
/// `Start`, then for every physical line each anchor column's write
/// (color-bracketed where a color is assigned) and one `Reset`, then
/// `Finish`. The stream is a pure function of the inputs.
pub fn build(recs: &Records, cfg: &Config, dims: &Dimensions, colors: &ColorMap) -> (out: Vec<
    Instr,
>)
    requires
        recs.rectangular(),
        spans_wf(cfg.spans@, recs.nrows(), recs.ncols()),
        as_ints(dims.widths@) == spec_widths(*recs, *cfg),
        as_ints(dims.heights@) == spec_heights(*recs, *cfg),
        dims.widths@.len() as int == recs.ncols(),
        dims.heights@.len() as int == recs.nrows(),
        dims_fit(*recs, *cfg),
    ensures
        views(out@) == spec_render(
            *recs,
            *cfg,
            as_ints(dims.widths@),
            as_ints(dims.heights@),
            *colors,
        ),
{
    let ghost ws = as_ints(dims.widths@);
    let ghost hs = as_ints(dims.heights@);
    let nrows = recs.row_count();
    let ncols = recs.col_count();
    let mut out: Vec<Instr> = Vec::new();
    proof {
        lemma_views_push(out@, Instr::Start);
        lemma_widths_step_wf(*recs, *cfg, cfg.spans@.len() as int);
        lemma_heights_step_wf(*recs, *cfg, cfg.spans@.len() as int);
    }
    out.push(Instr::Start);
    proof {
        assert(views(out@) =~= seq![InstrV::Start] + rows_upto(*recs, *cfg, ws, hs, *colors, 0));
    }
    let mut r: usize = 0;
    while r < nrows
        invariant
            r <= nrows,
            nrows as int == recs.nrows(),
            ncols as int == recs.ncols(),
            recs.rectangular(),
            spans_wf(cfg.spans@, recs.nrows(), recs.ncols()),
            ws == as_ints(dims.widths@),
            hs == as_ints(dims.heights@),
            ws == spec_widths(*recs, *cfg),
            hs == spec_heights(*recs, *cfg),
            dims.widths@.len() as int == recs.ncols(),
            dims.heights@.len() as int == recs.nrows(),
            dims_fit(*recs, *cfg),
            nonneg_in(ws, 0, recs.ncols()),
            nonneg_in(hs, 0, recs.nrows()),
            views(out@) == seq![InstrV::Start] + rows_upto(*recs, *cfg, ws, hs, *colors, r as int),
        decreases nrows - r,
    {
        let hr = dims.heights[r];
        let mut l: usize = 0;
        while l < hr
            invariant
                l <= hr,
                r < nrows,
                hr as int == hs[r as int],
                nrows as int == recs.nrows(),
                ncols as int == recs.ncols(),
                recs.rectangular(),
                spans_wf(cfg.spans@, recs.nrows(), recs.ncols()),
                ws == as_ints(dims.widths@),
                hs == as_ints(dims.heights@),
                ws == spec_widths(*recs, *cfg),
                hs == spec_heights(*recs, *cfg),
                dims.widths@.len() as int == recs.ncols(),
                dims.heights@.len() as int == recs.nrows(),
                dims_fit(*recs, *cfg),
                nonneg_in(ws, 0, recs.ncols()),
                nonneg_in(hs, 0, recs.nrows()),
                views(out@) == seq![InstrV::Start] + rows_upto(*recs, *cfg, ws, hs, *colors, r as int)
                    + row_lines(*recs, *cfg, ws, hs, *colors, r as int, l as int),
            decreases hr - l,
        {
            let mut c: usize = 0;
            while c < ncols
                invariant
                    c <= ncols,
                    l < hr,
                    r < nrows,
                    hr as int == hs[r as int],
                    nrows as int == recs.nrows(),
                    ncols as int == recs.ncols(),
                    recs.rectangular(),
                    spans_wf(cfg.spans@, recs.nrows(), recs.ncols()),
                    ws == as_ints(dims.widths@),
                    hs == as_ints(dims.heights@),
                    ws == spec_widths(*recs, *cfg),
                    hs == spec_heights(*recs, *cfg),
                    dims.widths@.len() as int == recs.ncols(),
                    dims.heights@.len() as int == recs.nrows(),
                    dims_fit(*recs, *cfg),
                    nonneg_in(ws, 0, recs.ncols()),
                    nonneg_in(hs, 0, recs.nrows()),
                    views(out@) == seq![InstrV::Start] + rows_upto(
                        *recs,
                        *cfg,
                        ws,
                        hs,
                        *colors,
                        r as int,
                    ) + row_lines(*recs, *cfg, ws, hs, *colors, r as int, l as int) + line_cols(
                        *recs,
                        *cfg,
                        ws,
                        hs,
                        *colors,
                        r as int,
                        l as int,
                        c as int,
                    ),
                decreases ncols - c,
            {
                let ghost emitted = col_emit(*recs, *cfg, ws, hs, *colors, r as int, l as int, c as int);
                let ghost before = views(out@);
                let cover = find_cover(&cfg.spans, nrows, ncols, r, c);
                let reg = match cover {
                    Option::Some(s) => s,
                    Option::None => SpanDesc { row: r, col: c, rows: 1, cols: 1 },
                };
                proof {
                    assert(reg == region_of(cfg.spans@, r as int, c as int));
                    if covered_by(cfg.spans@, r as int, c as int) {
                        let ci = cover_idx(cfg.spans@, r as int, c as int);
                        assert(span_covers(cfg.spans@[ci], r as int, c as int));
                        assert(cfg.spans@[ci].rows >= 1);
                    }
                    assert(reg.rows >= 1 && reg.cols >= 1);
                    assert(reg.row <= r < reg.row + reg.rows);
                    assert(reg.row + reg.rows <= recs.nrows());
                    assert(reg.col + reg.cols <= recs.ncols() || reg.col != c);
                }
                if reg.col == c {
                    let ar = reg.row;
                    proof {
                        assert(reg.col + reg.cols <= recs.ncols());
                        lemma_sumi_subrange_le(ws, 0, c as int, c + reg.cols, recs.ncols());
                        lemma_sumi_subrange_le(hs, 0, ar as int, ar + reg.rows, recs.nrows());
                        lemma_sumi_subrange_le(hs, 0, ar as int, r as int, recs.nrows());
                        assert(nonneg_in(hs, ar as int, r + 1));
                        lemma_sumi_prefix_le(hs, ar as int, r + 1, ar + reg.rows);
                        assert(sumi(hs, ar as int, r + 1) == sumi(hs, ar as int, r as int) + hs[r as int]);
                    }
                    let w = sum_range(&dims.widths, c, c + reg.cols);
                    let h = sum_range(&dims.heights, ar, ar + reg.rows);
                    let vbase = sum_range(&dims.heights, ar, r);
                    let voff = vbase + l;
                    let kk = cfg.resolve(Position { row: ar, col: c });
                    let cell = &recs.rows[ar][c];
                    let line = render_cell_line(cell, &kk, w, h, voff);
                    let ghost linev = line@;
                    let color = colors.color_at(Position { row: ar, col: c });
                    proof {
                        assert(linev == cell_line(
                            recs.cell(ar as int, c as int),
                            cfg.spec_resolve(ar as int, c as int),
                            sumi(ws, c as int, c + reg.cols),
                            sumi(hs, ar as int, ar + reg.rows),
                            sumi(hs, ar as int, r as int) + l,
                        ));
                    }
                    match color {
                        Option::Some(cp) => {
                            let ghost o0 = out@;
                            out.push(Instr::ColorStart { color: cp });
                            let ghost o1 = out@;
                            out.push(Instr::WriteStr { text: line, width: w });
                            let ghost o2 = out@;
                            out.push(Instr::ColorStop { color: cp });
                            proof {
                                lemma_views_push(o0, Instr::ColorStart { color: cp });
                                assert(views(o2) =~= views(o1).push(o2.last()@));
                                lemma_views_push(o2, Instr::ColorStop { color: cp });
                                assert(o2.last()@ == InstrV::WriteStr {
                                    text: linev,
                                    width: w as int,
                                });
                                assert(views(out@) =~= before + emitted);
                            }
                        },
                        Option::None => {
                            let ghost o0 = out@;
                            out.push(Instr::WriteStr { text: line, width: w });
                            proof {
                                assert(views(out@) =~= views(o0).push(out@.last()@));
                                assert(out@.last()@ == InstrV::WriteStr {
                                    text: linev,
                                    width: w as int,
                                });
                                assert(views(out@) =~= before + emitted);
                            }
                        },
                    }
                } else {
                    proof {
                        assert(emitted =~= Seq::<InstrV>::empty());
                        assert(views(out@) =~= before + emitted);
                    }
                }
                proof {
                    assert(line_cols(*recs, *cfg, ws, hs, *colors, r as int, l as int, c + 1)
                        == line_cols(*recs, *cfg, ws, hs, *colors, r as int, l as int, c as int)
                        + emitted);
                    assert(views(out@) =~= seq![InstrV::Start] + rows_upto(
                        *recs,
                        *cfg,
                        ws,
                        hs,
                        *colors,
                        r as int,
                    ) + row_lines(*recs, *cfg, ws, hs, *colors, r as int, l as int) + line_cols(
                        *recs,
                        *cfg,
                        ws,
                        hs,
                        *colors,
                        r as int,
                        l as int,
                        c + 1,
                    ));
                }
                c = c + 1;
            }
            let ghost o3 = out@;
            out.push(Instr::Reset);
            proof {
                lemma_views_push(o3, Instr::Reset);
                assert(row_lines(*recs, *cfg, ws, hs, *colors, r as int, l + 1) == row_lines(
                    *recs,
                    *cfg,
                    ws,
                    hs,
                    *colors,
                    r as int,
                    l as int,
                ) + line_full(*recs, *cfg, ws, hs, *colors, r as int, l as int));
                assert(views(out@) =~= seq![InstrV::Start] + rows_upto(
                    *recs,
                    *cfg,
                    ws,
                    hs,
                    *colors,
                    r as int,
                ) + row_lines(*recs, *cfg, ws, hs, *colors, r as int, l + 1));
            }
            l = l + 1;
        }
        proof {
            assert(rows_upto(*recs, *cfg, ws, hs, *colors, r + 1) == rows_upto(
                *recs,
                *cfg,
                ws,
                hs,
                *colors,
                r as int,
            ) + row_lines(*recs, *cfg, ws, hs, *colors, r as int, hs[r as int]));
            assert(views(out@) =~= seq![InstrV::Start] + rows_upto(
                *recs,
                *cfg,
                ws,
                hs,
                *colors,
                r + 1,
            ) + row_lines(*recs, *cfg, ws, hs, *colors, r + 1, 0));
        }
        r = r + 1;
    }
    let ghost o4 = out@;
    out.push(Instr::Finish);
    proof {
        lemma_views_push(o4, Instr::Finish);
        assert(views(out@) =~= spec_render(*recs, *cfg, ws, hs, *colors));
    }
    out
}

} // verus!

verus! {

/// Traversal never emits a write instruction for an absorbed position:
/// a position covered by a span anywhere right of the anchor column
/// contributes nothing to the stream. The remaining covered positions —
/// those in the anchor column below the anchor row — carry lines of the
/// anchor cell's own rectangle, as `col_emit` shows, never the absorbed
/// cell's content.
pub proof fn lemma_absorbed_no_write(
    recs: Records,
    cfg: Config,
    ws: Seq<int>,
    hs: Seq<int>,
    colors: ColorMap,
    r: int,
    l: int,
    c: int,
)
    requires
        is_absorbed(cfg.spans@, r, c),
        region_of(cfg.spans@, r, c).col != c,
    ensures
        col_emit(recs, cfg, ws, hs, colors, r, l, c) == Seq::<InstrV>::empty(),
{
}

/// How many row-breaks a stream holds.
pub open spec fn count_resets(s: Seq<InstrV>) -> int
    decreases s.len(),
{
    if s.len() == 0 {
        0
    } else {
        count_resets(s.drop_last()) + (match s.last() {
            InstrV::Reset => 1int,
            _ => 0int,
        })
    }
}

pub proof fn lemma_count_concat(a: Seq<InstrV>, b: Seq<InstrV>)
    ensures
        count_resets(a + b) == count_resets(a) + count_resets(b),
    decreases b.len(),
{
    if b.len() == 0 {
        assert(a + b =~= a);
    } else {
        assert((a + b).drop_last() =~= a + b.drop_last());
        assert((a + b).last() == b.last());
        lemma_count_concat(a, b.drop_last());
    }
}

/// A column's contribution holds no row-break.
pub proof fn lemma_count_col_emit(
    recs: Records,
    cfg: Config,
    ws: Seq<int>,
    hs: Seq<int>,
    colors: ColorMap,
    r: int,
    l: int,
    c: int,
)
    ensures
        count_resets(col_emit(recs, cfg, ws, hs, colors, r, l, c)) == 0,
{
    let e = col_emit(recs, cfg, ws, hs, colors, r, l, c);
    if e.len() == 1 {
        lemma_count_one(e[0]);
        assert(e =~= seq![e[0]]);
    } else if e.len() == 3 {
        assert(e =~= seq![e[0]] + seq![e[1]] + seq![e[2]]);
        lemma_count_one(e[0]);
        lemma_count_one(e[1]);
        lemma_count_one(e[2]);
        lemma_count_concat(seq![e[0]], seq![e[1]]);
        lemma_count_concat(seq![e[0]] + seq![e[1]], seq![e[2]]);
    }
}

/// The row-break count of a one-instruction stream.
pub proof fn lemma_count_one(i: InstrV)
    ensures
        count_resets(seq![i]) == (match i {
            InstrV::Reset => 1int,
            _ => 0int,
        }),
{
    assert(count_resets(Seq::<InstrV>::empty()) == 0);
    assert(seq![i].drop_last() =~= Seq::<InstrV>::empty());
    assert(seq![i].last() == i);
}

pub proof fn lemma_count_line_cols(
    recs: Records,
    cfg: Config,
    ws: Seq<int>,
    hs: Seq<int>,
    colors: ColorMap,
    r: int,
    l: int,
    c: int,
)
    ensures
        count_resets(line_cols(recs, cfg, ws, hs, colors, r, l, c)) == 0,
    decreases c,
{
    if c <= 0 {
    } else {
        lemma_count_line_cols(recs, cfg, ws, hs, colors, r, l, c - 1);
        lemma_count_col_emit(recs, cfg, ws, hs, colors, r, l, c - 1);
        lemma_count_concat(
            line_cols(recs, cfg, ws, hs, colors, r, l, c - 1),
            col_emit(recs, cfg, ws, hs, colors, r, l, c - 1),
        );
    }
}

/// Every physical line holds exactly one row-break.
pub proof fn lemma_count_line_full(
    recs: Records,
    cfg: Config,
    ws: Seq<int>,
    hs: Seq<int>,
    colors: ColorMap,
    r: int,
    l: int,
)
    ensures
        count_resets(line_full(recs, cfg, ws, hs, colors, r, l)) == 1,
{
    lemma_count_line_cols(recs, cfg, ws, hs, colors, r, l, recs.ncols());
    lemma_count_concat(
        line_cols(recs, cfg, ws, hs, colors, r, l, recs.ncols()),
        seq![InstrV::Reset],
    );
    lemma_count_one(InstrV::Reset);
}

pub proof fn lemma_count_row_lines(
    recs: Records,
    cfg: Config,
    ws: Seq<int>,
    hs: Seq<int>,
    colors: ColorMap,
    r: int,
    l: int,
)
    requires
        l >= 0,
    ensures
        count_resets(row_lines(recs, cfg, ws, hs, colors, r, l)) == l,
    decreases l,
{
    if l > 0 {
        lemma_count_row_lines(recs, cfg, ws, hs, colors, r, l - 1);
        lemma_count_line_full(recs, cfg, ws, hs, colors, r, l - 1);
        lemma_count_concat(
            row_lines(recs, cfg, ws, hs, colors, r, l - 1),
            line_full(recs, cfg, ws, hs, colors, r, l - 1),
        );
    }
}

pub proof fn lemma_count_rows_upto(
    recs: Records,
    cfg: Config,
    ws: Seq<int>,
    hs: Seq<int>,
    colors: ColorMap,
    r: int,
)
    requires
        nonneg_in(hs, 0, r),
    ensures
        count_resets(rows_upto(recs, cfg, ws, hs, colors, r)) == sumi(hs, 0, r),
    decreases r,
{
    if r > 0 {
        lemma_count_rows_upto(recs, cfg, ws, hs, colors, r - 1);
        lemma_count_row_lines(recs, cfg, ws, hs, colors, r - 1, hs[r - 1]);
        lemma_count_concat(
            rows_upto(recs, cfg, ws, hs, colors, r - 1),
            row_lines(recs, cfg, ws, hs, colors, r - 1, hs[r - 1]),
        );
    }
}

/// The number of row-breaks in a whole render equals the number of
/// logical output rows: the sum of all row heights.
pub proof fn lemma_reset_count(
    recs: Records,
    cfg: Config,
    ws: Seq<int>,
    hs: Seq<int>,
    colors: ColorMap,
)
    requires
        nonneg_in(hs, 0, recs.nrows()),
    ensures
        count_resets(spec_render(recs, cfg, ws, hs, colors)) == sumi(hs, 0, recs.nrows()),
{
    let body = rows_upto(recs, cfg, ws, hs, colors, recs.nrows());
    lemma_count_rows_upto(recs, cfg, ws, hs, colors, recs.nrows());
    lemma_count_one(InstrV::Start);
    lemma_count_one(InstrV::Finish);
    lemma_count_concat(seq![InstrV::Start], body);
    lemma_count_concat(seq![InstrV::Start] + body, seq![InstrV::Finish]);
}

/// An empty grid renders as the bare bracket: start, then finish, with
/// no writes and no row-breaks.
pub proof fn lemma_empty_render(
    recs: Records,
    cfg: Config,
    ws: Seq<int>,
    hs: Seq<int>,
    colors: ColorMap,
)
    requires
        recs.nrows() == 0,
    ensures
        spec_render(recs, cfg, ws, hs, colors) == seq![InstrV::Start, InstrV::Finish],
{
    assert(rows_upto(recs, cfg, ws, hs, colors, 0) == Seq::<InstrV>::empty());
    assert(seq![InstrV::Start] + Seq::<InstrV>::empty() + seq![InstrV::Finish] =~= seq![
        InstrV::Start,
        InstrV::Finish,
    ]);
}

} // verus!

verus! {

/// How many colored runs a stream opens.
pub open spec fn count_color_starts(s: Seq<InstrV>) -> int
    decreases s.len(),
{
    if s.len() == 0 {
        0
    } else {
        count_color_starts(s.drop_last()) + (match s.last() {
            InstrV::ColorStart { .. } => 1int,
            _ => 0int,
        })
    }
}

/// How many colored runs a stream closes.
pub open spec fn count_color_stops(s: Seq<InstrV>) -> int
    decreases s.len(),
{
    if s.len() == 0 {
        0
    } else {
        count_color_stops(s.drop_last()) + (match s.last() {
            InstrV::ColorStop { .. } => 1int,
            _ => 0int,
        })
    }
}

pub proof fn lemma_color_counts_one(i: InstrV)
    ensures
        count_color_starts(seq![i]) == (match i {
            InstrV::ColorStart { .. } => 1int,
            _ => 0int,
        }),
        count_color_stops(seq![i]) == (match i {
            InstrV::ColorStop { .. } => 1int,
            _ => 0int,
        }),
{
    assert(count_color_starts(Seq::<InstrV>::empty()) == 0);
    assert(count_color_stops(Seq::<InstrV>::empty()) == 0);
    assert(seq![i].drop_last() =~= Seq::<InstrV>::empty());
    assert(seq![i].last() == i);
}

pub proof fn lemma_color_counts_concat(a: Seq<InstrV>, b: Seq<InstrV>)
    ensures
        count_color_starts(a + b) == count_color_starts(a) + count_color_starts(b),
        count_color_stops(a + b) == count_color_stops(a) + count_color_stops(b),
    decreases b.len(),
{
    if b.len() == 0 {
        assert(a + b =~= a);
    } else {
        assert((a + b).drop_last() =~= a + b.drop_last());
        assert((a + b).last() == b.last());
        lemma_color_counts_concat(a, b.drop_last());
    }
}

/// Whether the column emits a color-bracketed write: it is an anchor
/// column and its region's anchor carries a color.
pub open spec fn pair_at(cfg: Config, colors: ColorMap, r: int, c: int) -> bool {
    &&& region_of(cfg.spans@, r, c).col == c
    &&& colors.spec_color_at(region_of(cfg.spans@, r, c).row as int, c) is Some
}

/// A column's contribution opens and closes one colored run when its
/// region's anchor carries a color, and none otherwise.
pub proof fn lemma_color_counts_col_emit(
    recs: Records,
    cfg: Config,
    ws: Seq<int>,
    hs: Seq<int>,
    colors: ColorMap,
    r: int,
    l: int,
    c: int,
)
    ensures
        count_color_starts(col_emit(recs, cfg, ws, hs, colors, r, l, c)) == (if pair_at(
            cfg,
            colors,
            r,
            c,
        ) {
            1int
        } else {
            0int
        }),
        count_color_stops(col_emit(recs, cfg, ws, hs, colors, r, l, c)) == (if pair_at(
            cfg,
            colors,
            r,
            c,
        ) {
            1int
        } else {
            0int
        }),
{
    let e = col_emit(recs, cfg, ws, hs, colors, r, l, c);
    if e.len() == 1 {
        lemma_color_counts_one(e[0]);
        assert(e =~= seq![e[0]]);
    } else if e.len() == 3 {
        assert(e =~= seq![e[0]] + seq![e[1]] + seq![e[2]]);
        lemma_color_counts_one(e[0]);
        lemma_color_counts_one(e[1]);
        lemma_color_counts_one(e[2]);
        lemma_color_counts_concat(seq![e[0]], seq![e[1]]);
        lemma_color_counts_concat(seq![e[0]] + seq![e[1]], seq![e[2]]);
    }
}

} // verus!

verus! {

/// A color map that assigns a color to the top-left position and to no
/// other.
pub open spec fn only_origin_colored(colors: ColorMap) -> bool {
    &&& colors.spec_color_at(0, 0) is Some
    &&& forall|r: int, c: int|
        !(r == 0 && c == 0) ==> #[trigger] colors.spec_color_at(r, c) is None
}

/// With the top-left position alone colored, only column zero of a line
/// can open a colored run.
proof fn lemma_color_counts_line_cols(
    recs: Records,
    cfg: Config,
    ws: Seq<int>,
    hs: Seq<int>,
    colors: ColorMap,
    r: int,
    l: int,
    c: int,
)
    requires
        only_origin_colored(colors),
        0 <= c,
    ensures
        count_color_starts(line_cols(recs, cfg, ws, hs, colors, r, l, c)) == (if c >= 1 && pair_at(
            cfg,
            colors,
            r,
            0,
        ) {
            1int
        } else {
            0int
        }),
        count_color_stops(line_cols(recs, cfg, ws, hs, colors, r, l, c)) == (if c >= 1 && pair_at(
            cfg,
            colors,
            r,
            0,
        ) {
            1int
        } else {
            0int
        }),
    decreases c,
{
    if c > 0 {
        lemma_color_counts_line_cols(recs, cfg, ws, hs, colors, r, l, c - 1);
        lemma_color_counts_col_emit(recs, cfg, ws, hs, colors, r, l, c - 1);
        lemma_color_counts_concat(
            line_cols(recs, cfg, ws, hs, colors, r, l, c - 1),
            col_emit(recs, cfg, ws, hs, colors, r, l, c - 1),
        );
        if c - 1 >= 1 && pair_at(cfg, colors, r, c - 1) {
            assert(colors.spec_color_at(region_of(cfg.spans@, r, c - 1).row as int, c - 1)
                is None);
        }
    }
}

proof fn lemma_color_counts_row_lines(
    recs: Records,
    cfg: Config,
    ws: Seq<int>,
    hs: Seq<int>,
    colors: ColorMap,
    r: int,
    l: int,
)
    requires
        only_origin_colored(colors),
        l >= 0,
    ensures
        count_color_starts(row_lines(recs, cfg, ws, hs, colors, r, l)) == (if recs.ncols() >= 1
            && pair_at(cfg, colors, r, 0) {
            l
        } else {
            0int
        }),
        count_color_stops(row_lines(recs, cfg, ws, hs, colors, r, l)) == (if recs.ncols() >= 1
            && pair_at(cfg, colors, r, 0) {
            l
        } else {
            0int
        }),
    decreases l,
{
    if l > 0 {
        lemma_color_counts_row_lines(recs, cfg, ws, hs, colors, r, l - 1);
        lemma_color_counts_line_cols(recs, cfg, ws, hs, colors, r, l - 1, recs.ncols());
        lemma_color_counts_one(InstrV::Reset);
        lemma_color_counts_concat(
            line_cols(recs, cfg, ws, hs, colors, r, l - 1, recs.ncols()),
            seq![InstrV::Reset],
        );
        lemma_color_counts_concat(
            row_lines(recs, cfg, ws, hs, colors, r, l - 1),
            line_full(recs, cfg, ws, hs, colors, r, l - 1),
        );
        if recs.ncols() <= 0 {
            assert(line_cols(recs, cfg, ws, hs, colors, r, l - 1, recs.ncols())
                == Seq::<InstrV>::empty());
        }
    }
}

/// The physical lines of the first `r` logical rows whose anchor column
/// zero is colored.
pub open spec fn colored_height(cfg: Config, hs: Seq<int>, colors: ColorMap, r: int) -> int
    decreases r,
{
    if r <= 0 {
        0
    } else {
        colored_height(cfg, hs, colors, r - 1) + (if pair_at(cfg, colors, r - 1, 0) {
            hs[r - 1]
        } else {
            0int
        })
    }
}

proof fn lemma_color_counts_rows_upto(
    recs: Records,
    cfg: Config,
    ws: Seq<int>,
    hs: Seq<int>,
    colors: ColorMap,
    r: int,
)
    requires
        only_origin_colored(colors),
        recs.ncols() >= 1,
        nonneg_in(hs, 0, r),
        0 <= r,
    ensures
        count_color_starts(rows_upto(recs, cfg, ws, hs, colors, r)) == colored_height(
            cfg,
            hs,
            colors,
            r,
        ),
        count_color_stops(rows_upto(recs, cfg, ws, hs, colors, r)) == colored_height(
            cfg,
            hs,
            colors,
            r,
        ),
    decreases r,
{
    if r > 0 {
        lemma_color_counts_rows_upto(recs, cfg, ws, hs, colors, r - 1);
        lemma_color_counts_row_lines(recs, cfg, ws, hs, colors, r - 1, hs[r - 1]);
        lemma_color_counts_concat(
            rows_upto(recs, cfg, ws, hs, colors, r - 1),
            row_lines(recs, cfg, ws, hs, colors, r - 1, hs[r - 1]),
        );
    }
}

} // verus!

verus! {

/// With the top-left position alone colored, the colored anchor column
/// zero appears exactly on the rows covered by the top-left region.
proof fn lemma_pair_at_origin_region(
    cfg: Config,
    colors: ColorMap,
    nrows: int,
    ncols: int,
    r: int,
)
    requires
        spans_wf(cfg.spans@, nrows, ncols),
        only_origin_colored(colors),
        0 <= r <= usize::MAX as int,
    ensures
        pair_at(cfg, colors, r, 0) == (r < region_of(cfg.spans@, 0, 0).rows as int),
{
    let spans = cfg.spans@;
    let reg0 = region_of(spans, 0, 0);
    if covered_by(spans, 0, 0) {
        let ci = cover_idx(spans, 0, 0);
        assert(span_covers(spans[ci], 0, 0));
        assert(spans[ci].row == 0 && spans[ci].col == 0);
        if r < reg0.rows {
            assert(span_covers(spans[ci], r, 0));
            assert(covered_by(spans, r, 0));
            crate::grid::lemma_cover_unique(
                spans,
                nrows,
                ncols,
                ci,
                cover_idx(spans, r, 0),
                r,
                0,
            );
            assert(region_of(spans, r, 0) == spans[ci]);
        } else {
            if pair_at(cfg, colors, r, 0) {
                let reg = region_of(spans, r, 0);
                assert(colors.spec_color_at(reg.row as int, 0) is Some);
                if !(reg.row == 0) {
                    assert(colors.spec_color_at(reg.row as int, 0) is None);
                }
                assert(reg.row == 0 && reg.col == 0);
                if covered_by(spans, r, 0) {
                    let cj = cover_idx(spans, r, 0);
                    assert(span_covers(spans[cj], r, 0));
                    assert(span_covers(spans[cj], 0, 0));
                    crate::grid::lemma_cover_unique(spans, nrows, ncols, ci, cj, 0, 0);
                    assert(r < reg0.rows);
                } else {
                    assert(reg.row == r);
                    assert(reg0.rows >= 1);
                }
            }
        }
    } else {
        assert(reg0.rows == 1);
        if r == 0 {
            assert(pair_at(cfg, colors, 0, 0));
        } else {
            if pair_at(cfg, colors, r, 0) {
                let reg = region_of(spans, r, 0);
                if !(reg.row == 0) {
                    assert(colors.spec_color_at(reg.row as int, 0) is None);
                }
                assert(reg.row == 0 && reg.col == 0);
                if covered_by(spans, r, 0) {
                    let cj = cover_idx(spans, r, 0);
                    assert(span_covers(spans[cj], r, 0));
                    assert(span_covers(spans[cj], 0, 0));
                    assert(covered_by(spans, 0, 0));
                } else {
                    assert(reg.row == r);
                }
            }
        }
    }
}

proof fn lemma_colored_height_is_region(
    cfg: Config,
    colors: ColorMap,
    hs: Seq<int>,
    nrows: int,
    ncols: int,
    r: int,
)
    requires
        spans_wf(cfg.spans@, nrows, ncols),
        only_origin_colored(colors),
        0 <= r <= usize::MAX as int,
    ensures
        colored_height(cfg, hs, colors, r) == sumi(
            hs,
            0,
            if r < region_of(cfg.spans@, 0, 0).rows as int {
                r
            } else {
                region_of(cfg.spans@, 0, 0).rows as int
            },
        ),
    decreases r,
{
    if r > 0 {
        lemma_colored_height_is_region(cfg, colors, hs, nrows, ncols, r - 1);
        lemma_pair_at_origin_region(cfg, colors, nrows, ncols, r - 1);
    }
}

/// With a color assigned to the top-left position and to no other, a
/// render opens and closes exactly as many colored runs as the top-left
/// region's rectangle has physical lines — so exactly one bracketed
/// pair when that rectangle is one line tall. `col_emit` shows each
/// opened run closes right after that line's single write, so the pair
/// brackets exactly the colored cell's output.
pub proof fn lemma_single_color_pairs(
    recs: Records,
    cfg: Config,
    ws: Seq<int>,
    hs: Seq<int>,
    colors: ColorMap,
)
    requires
        spans_wf(cfg.spans@, recs.nrows(), recs.ncols()),
        recs.nrows() >= 1,
        recs.ncols() >= 1,
        only_origin_colored(colors),
        nonneg_in(hs, 0, recs.nrows()),
    ensures
        count_color_starts(spec_render(recs, cfg, ws, hs, colors)) == sumi(
            hs,
            0,
            region_of(cfg.spans@, 0, 0).rows as int,
        ),
        count_color_stops(spec_render(recs, cfg, ws, hs, colors)) == sumi(
            hs,
            0,
            region_of(cfg.spans@, 0, 0).rows as int,
        ),
        sumi(hs, 0, region_of(cfg.spans@, 0, 0).rows as int) == 1 ==> {
            &&& count_color_starts(spec_render(recs, cfg, ws, hs, colors)) == 1
            &&& count_color_stops(spec_render(recs, cfg, ws, hs, colors)) == 1
        },
{
    let nrows = recs.nrows();
    let ncols = recs.ncols();
    vstd::std_specs::vec::axiom_spec_len(&recs.rows);
    assert(nrows <= usize::MAX as int);
    let reg0 = region_of(cfg.spans@, 0, 0);
    if covered_by(cfg.spans@, 0, 0) {
        let ci = cover_idx(cfg.spans@, 0, 0);
        assert(span_covers(cfg.spans@[ci], 0, 0));
        assert(cfg.spans@[ci].row == 0);
        assert(reg0.rows <= nrows);
    } else {
        assert(reg0.rows == 1);
    }
    let body = rows_upto(recs, cfg, ws, hs, colors, nrows);
    lemma_color_counts_rows_upto(recs, cfg, ws, hs, colors, nrows);
    lemma_colored_height_is_region(cfg, colors, hs, nrows, ncols, nrows);
    lemma_color_counts_one(InstrV::Start);
    lemma_color_counts_one(InstrV::Finish);
    lemma_color_counts_concat(seq![InstrV::Start], body);
    lemma_color_counts_concat(seq![InstrV::Start] + body, seq![InstrV::Finish]);
}

} // verus!
