//! The logical grid: cell records, per-cell configuration, spans and colors.

use vstd::prelude::*;
use crate::Position;

verus! {

/// One cell's text content, as lines of characters.
#[derive(Clone, Debug)]
pub struct Cell {
    pub lines: Vec<Vec<char>>,
}

impl Cell {
    /// The widest line of the cell, in characters.
    pub open spec fn spec_text_width(&self) -> int {
        max_line_width(self.lines@, self.lines@.len() as int)
    }

    /// The number of content lines.
    pub open spec fn spec_text_height(&self) -> int {
        self.lines@.len() as int
    }

    /// Builds a cell from its content lines.
    pub fn new(lines: Vec<Vec<char>>) -> (c: Cell)
        ensures
            c.lines == lines,
    {
        Cell { lines }
    }

    /// Computes the widest line of the cell.
    pub fn text_width(&self) -> (w: usize)
        ensures
            w as int == self.spec_text_width(),
    {
        let mut w: usize = 0;
        let mut i: usize = 0;
        while i < self.lines.len()
            invariant
                i <= self.lines@.len(),
                w as int == max_line_width(self.lines@, i as int),
            decreases self.lines@.len() - i,
        {
            let li = self.lines[i].len();
            if li > w {
                w = li;
            }
            i = i + 1;
        }
        w
    }
}

/// The maximum length among the first `k` lines.
pub open spec fn max_line_width(lines: Seq<Vec<char>>, k: int) -> int
    decreases k,
{
    if k <= 0 {
        0
    } else if lines[k - 1]@.len() as int > max_line_width(lines, k - 1) {
        lines[k - 1]@.len() as int
    } else {
        max_line_width(lines, k - 1)
    }
}

/// The resolved grid of cells, row-major.
#[derive(Clone, Debug)]
pub struct Records {
    pub rows: Vec<Vec<Cell>>,
}

impl Records {
    pub open spec fn nrows(&self) -> int {
        self.rows@.len() as int
    }

    pub open spec fn ncols(&self) -> int {
        if self.rows@.len() == 0 {
            0
        } else {
            self.rows@[0]@.len() as int
        }
    }

    /// Every row has the same number of cells.
    pub open spec fn rectangular(&self) -> bool {
        forall|r: int| 0 <= r < self.nrows() ==> #[trigger] self.rows@[r]@.len() as int == self.ncols()
    }

    pub open spec fn cell(&self, r: int, c: int) -> Cell {
        self.rows@[r]@[c]
    }

    /// Builds a grid from rows of cells.
    pub fn new(rows: Vec<Vec<Cell>>) -> (g: Records)
        ensures
            g.rows == rows,
    {
        Records { rows }
    }

    /// The number of logical rows.
    pub fn row_count(&self) -> (n: usize)
        ensures
            n as int == self.nrows(),
    {
        self.rows.len()
    }

    /// The number of logical columns.
    pub fn col_count(&self) -> (n: usize)
        ensures
            n as int == self.ncols(),
    {
        if self.rows.len() == 0 {
            0
        } else {
            self.rows[0].len()
        }
    }
}

/// Horizontal placement of content inside its cell rectangle.
#[derive(Clone, Copy, Debug, PartialEq, Eq, Structural)]
pub enum HAlign {
    Left,
    Center,
    Right,
}

/// Vertical placement of content inside its cell rectangle.
#[derive(Clone, Copy, Debug, PartialEq, Eq, Structural)]
pub enum VAlign {
    Top,
    Center,
    Bottom,
}

/// Padding and alignment for one cell.
#[derive(Clone, Copy, Debug, PartialEq, Eq, Structural)]
pub struct CellConfig {
    pub pad_left: usize,
    pub pad_right: usize,
    pub pad_top: usize,
    pub pad_bottom: usize,
    pub halign: HAlign,
    pub valign: VAlign,
}

impl CellConfig {
    /// Left-aligned, top-aligned, no padding.
    pub fn plain() -> (k: CellConfig)
        ensures
            k == (CellConfig {
                pad_left: 0,
                pad_right: 0,
                pad_top: 0,
                pad_bottom: 0,
                halign: HAlign::Left,
                valign: VAlign::Top,
            }),
    {
        CellConfig {
            pad_left: 0,
            pad_right: 0,
            pad_top: 0,
            pad_bottom: 0,
            halign: HAlign::Left,
            valign: VAlign::Top,
        }
    }
}

/// A per-position configuration override.
#[derive(Clone, Copy, Debug, PartialEq, Eq, Structural)]
pub struct ConfigEntry {
    pub pos: Position,
    pub cell: CellConfig,
}

/// A rectangular merge of adjacent positions, anchored at its top-left origin.
#[derive(Clone, Copy, Debug, PartialEq, Eq, Structural)]
pub struct SpanDesc {
    pub row: usize,
    pub col: usize,
    pub rows: usize,
    pub cols: usize,
}

/// Whether span `s` covers position `(r, c)`.
pub open spec fn span_covers(s: SpanDesc, r: int, c: int) -> bool {
    &&& s.row <= r < s.row + s.rows
    &&& s.col <= c < s.col + s.cols
}

/// Whether two spans cover disjoint rectangles.
pub open spec fn spans_disjoint(a: SpanDesc, b: SpanDesc) -> bool {
    ||| a.row + a.rows <= b.row
    ||| b.row + b.rows <= a.row
    ||| a.col + a.cols <= b.col
    ||| b.col + b.cols <= a.col
}

/// Well-formed span set: non-empty, in bounds, pairwise disjoint.
pub open spec fn spans_wf(spans: Seq<SpanDesc>, nrows: int, ncols: int) -> bool {
    &&& forall|i: int| 0 <= i < spans.len() ==> {
        &&& (#[trigger] spans[i]).rows >= 1
        &&& spans[i].cols >= 1
        &&& spans[i].row + spans[i].rows <= nrows
        &&& spans[i].col + spans[i].cols <= ncols
    }
    &&& forall|i: int, j: int|
        0 <= i < j < spans.len() ==> spans_disjoint(#[trigger] spans[i], #[trigger] spans[j])
}

/// Whether some span covers `(r, c)`.
pub open spec fn covered_by(spans: Seq<SpanDesc>, r: int, c: int) -> bool {
    exists|i: int| 0 <= i < spans.len() && span_covers(#[trigger] spans[i], r, c)
}

/// The index of the span covering `(r, c)`, where one exists.
pub open spec fn cover_idx(spans: Seq<SpanDesc>, r: int, c: int) -> int {
    choose|i: int| 0 <= i < spans.len() && span_covers(#[trigger] spans[i], r, c)
}

/// The span that covers `(r, c)`, as a 1-by-1 span at `(r, c)` itself when
/// no span covers the position.
pub open spec fn region_of(spans: Seq<SpanDesc>, r: int, c: int) -> SpanDesc {
    if covered_by(spans, r, c) {
        spans[cover_idx(spans, r, c)]
    } else {
        SpanDesc { row: r as usize, col: c as usize, rows: 1, cols: 1 }
    }
}

/// A position is absorbed when it lies inside a span but is not its origin.
pub open spec fn is_absorbed(spans: Seq<SpanDesc>, r: int, c: int) -> bool {
    covered_by(spans, r, c) && !(region_of(spans, r, c).row == r && region_of(spans, r, c).col == c)
}

/// A position is an anchor when it is the top-left of its region.
pub open spec fn is_anchor(spans: Seq<SpanDesc>, r: int, c: int) -> bool {
    region_of(spans, r, c).row == r && region_of(spans, r, c).col == c
}

/// At most one well-formed span covers any position.
pub proof fn lemma_cover_unique(spans: Seq<SpanDesc>, nrows: int, ncols: int, i: int, j: int, r: int, c: int)
    requires
        spans_wf(spans, nrows, ncols),
        0 <= i < spans.len(),
        0 <= j < spans.len(),
        span_covers(spans[i], r, c),
        span_covers(spans[j], r, c),
    ensures
        i == j,
{
    if i != j {
        if i < j {
            assert(spans_disjoint(spans[i], spans[j]));
        } else {
            assert(spans_disjoint(spans[j], spans[i]));
        }
    }
}

/// Finds the span covering `(r, c)`, if any.
pub fn find_cover(spans: &Vec<SpanDesc>, nrows: usize, ncols: usize, r: usize, c: usize) -> (res: Option<
    SpanDesc,
>)
    requires
        spans_wf(spans@, nrows as int, ncols as int),
    ensures
        res is Some <==> covered_by(spans@, r as int, c as int),
        res matches Some(s) ==> s == region_of(spans@, r as int, c as int),
{
    let mut i: usize = 0;
    while i < spans.len()
        invariant
            i <= spans@.len(),
            spans_wf(spans@, nrows as int, ncols as int),
            forall|k: int| 0 <= k < i ==> !span_covers(#[trigger] spans@[k], r as int, c as int),
        decreases spans@.len() - i,
    {
        let s = spans[i];
        if s.row <= r && r < s.row + s.rows && s.col <= c && c < s.col + s.cols {
            proof {
                assert(span_covers(spans@[i as int], r as int, c as int));
                lemma_cover_unique(
                    spans@,
                    nrows as int,
                    ncols as int,
                    i as int,
                    cover_idx(spans@, r as int, c as int),
                    r as int,
                    c as int,
                );
            }
            return Some(s);
        }
        i = i + 1;
    }
    None
}

/// The resolved per-position configuration: document-wide defaults plus an
/// ordered list of position overrides (later entries win) and the span set.
#[derive(Clone, Debug)]
pub struct Config {
    pub base: CellConfig,
    pub overrides: Vec<ConfigEntry>,
    pub spans: Vec<SpanDesc>,
}

/// Last-write-wins resolution of the override list over the default.
pub open spec fn resolve_entries(s: Seq<ConfigEntry>, base: CellConfig, r: int, c: int) -> CellConfig
    decreases s.len(),
{
    if s.len() == 0 {
        base
    } else if s.last().pos.row == r && s.last().pos.col == c {
        s.last().cell
    } else {
        resolve_entries(s.drop_last(), base, r, c)
    }
}

impl Config {
    /// The effective cell configuration at `(r, c)`.
    pub open spec fn spec_resolve(&self, r: int, c: int) -> CellConfig {
        resolve_entries(self.overrides@, self.base, r, c)
    }

    /// A configuration with the given defaults and no overrides or spans.
    pub fn new(base: CellConfig) -> (cfg: Config)
        ensures
            cfg.base == base,
            cfg.overrides@.len() == 0,
            cfg.spans@.len() == 0,
    {
        Config { base, overrides: Vec::new(), spans: Vec::new() }
    }

    /// Appends a position override; it takes precedence over earlier ones.
    pub fn push_override(&mut self, pos: Position, cell: CellConfig)
        ensures
            final(self).overrides@ == old(self).overrides@.push(ConfigEntry { pos, cell }),
            final(self).base == old(self).base,
            final(self).spans == old(self).spans,
    {
        self.overrides.push(ConfigEntry { pos, cell });
    }

    /// Appends a span descriptor.
    pub fn push_span(&mut self, span: SpanDesc)
        ensures
            final(self).spans@ == old(self).spans@.push(span),
            final(self).base == old(self).base,
            final(self).overrides == old(self).overrides,
    {
        self.spans.push(span);
    }

    /// Resolves the configuration at a position, later overrides winning.
    pub fn resolve(&self, pos: Position) -> (k: CellConfig)
        ensures
            k == self.spec_resolve(pos.row as int, pos.col as int),
    {
        let mut k = self.base;
        let mut i: usize = 0;
        while i < self.overrides.len()
            invariant
                i <= self.overrides@.len(),
                k == resolve_entries(self.overrides@.take(i as int), self.base, pos.row as int, pos.col as int),
            decreases self.overrides@.len() - i,
        {
            let e = self.overrides[i];
            proof {
                assert(self.overrides@.take(i + 1).drop_last() =~= self.overrides@.take(i as int));
                assert(self.overrides@.take(i + 1).last() == self.overrides@[i as int]);
            }
            if e.pos.row == pos.row && e.pos.col == pos.col {
                k = e.cell;
            }
            i = i + 1;
        }
        proof {
            assert(self.overrides@.take(self.overrides@.len() as int) =~= self.overrides@);
        }
        k
    }
}

/// A foreground/background color pair.
#[derive(Clone, Copy, Debug, PartialEq, Eq, Structural)]
pub struct ColorPair {
    pub fg: u8,
    pub bg: u8,
}

/// A color assigned to one grid position.
#[derive(Clone, Copy, Debug, PartialEq, Eq, Structural)]
pub struct ColorEntry {
    pub pos: Position,
    pub color: ColorPair,
}

/// A sparse map from grid position to color pair; absence means the
/// surface's default color.
#[derive(Clone, Debug)]
pub struct ColorMap {
    pub entries: Vec<ColorEntry>,
}

/// First-match lookup in the entry list.
pub open spec fn color_at_seq(s: Seq<ColorEntry>, r: int, c: int) -> Option<ColorPair>
    decreases s.len(),
{
    if s.len() == 0 {
        None
    } else if s[0].pos.row == r && s[0].pos.col == c {
        Some(s[0].color)
    } else {
        color_at_seq(s.drop_first(), r, c)
    }
}

impl ColorMap {
    /// The color assigned to `(r, c)`, if any.
    pub open spec fn spec_color_at(&self, r: int, c: int) -> Option<ColorPair> {
        color_at_seq(self.entries@, r, c)
    }

    /// An empty color map.
    pub fn new() -> (m: ColorMap)
        ensures
            m.entries@.len() == 0,
    {
        ColorMap { entries: Vec::new() }
    }

    /// Assigns a color to a position.
    pub fn push(&mut self, pos: Position, color: ColorPair)
        ensures
            final(self).entries@ == old(self).entries@.push(ColorEntry { pos, color }),
    {
        self.entries.push(ColorEntry { pos, color });
    }

    /// Looks a position up, first matching entry winning.
    pub fn color_at(&self, pos: Position) -> (res: Option<ColorPair>)
        ensures
            res == self.spec_color_at(pos.row as int, pos.col as int),
    {
        let mut i: usize = 0;
        proof {
            assert(self.entries@.skip(0) =~= self.entries@);
        }
        while i < self.entries.len()
            invariant
                i <= self.entries@.len(),
                color_at_seq(self.entries@, pos.row as int, pos.col as int) == color_at_seq(
                    self.entries@.skip(i as int),
                    pos.row as int,
                    pos.col as int,
                ),
                forall|k: int|
                    0 <= k < i ==> !((#[trigger] self.entries@[k]).pos.row == pos.row
                        && self.entries@[k].pos.col == pos.col),
        decreases self.entries@.len() - i,
        {
            let e = self.entries[i];
            proof {
                assert(self.entries@.skip(i as int)[0] == self.entries@[i as int]);
                assert(self.entries@.skip(i as int).drop_first() =~= self.entries@.skip(i + 1));
            }
            if e.pos.row == pos.row && e.pos.col == pos.col {
                return Some(e.color);
            }
            i = i + 1;
        }
        proof {
            assert(self.entries@.skip(self.entries@.len() as int).len() == 0);
        }
        None
    }
}

} // verus!
