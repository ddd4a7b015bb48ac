//! A grid-to-surface table rendering engine.
//!
//! The library lays out a logical grid of text cells — some merged into
//! row- or column-spans, each with its own padding, alignment and colors —
//! onto a fixed-size character surface. Layout happens in three stages:
//! the dimension estimator computes a width for every column and a height
//! for every row; the traversal engine walks the grid in output order and
//! emits a deterministic stream of write instructions; a surface adapter
//! applies that stream to a target rectangle of a character buffer,
//! clipping anything that falls outside it.

pub mod dimension;
pub mod traverse;
pub mod writer;
pub mod grid;

use vstd::prelude::*;

verus! {

/// A cursor or grid coordinate: `row` first, then `col`.
#[derive(Clone, Copy, Debug, PartialEq, Eq, Structural)]
pub struct Position {
    pub row: usize,
    pub col: usize,
}

} // verus!

use crate::dimension::{dims_fit, estimate, spec_heights, spec_widths};
use crate::grid::{ColorMap, Config, Records, spans_wf};
use crate::traverse::{Instr, build, spec_render, views};
use crate::writer::{
    AdapterV, Rect, Surface, SurfaceAdapter, WriteError, apply_all, in_rect,
    lemma_apply_all_outside, sv_at, sv_wf,
};

verus! {

/// The outward-facing widget: an immutable snapshot of a resolved grid,
/// its configuration and its colors, rendered on demand.
#[derive(Clone, Debug)]
pub struct Table {
    pub records: Records,
    pub config: Config,
    pub colors: ColorMap,
}

impl Table {
    /// A consistent snapshot: a rectangular grid and well-formed spans.
    pub open spec fn wf(&self) -> bool {
        &&& self.records.rectangular()
        &&& spans_wf(self.config.spans@, self.records.nrows(), self.records.ncols())
    }

    /// Takes ownership of a resolved grid snapshot.
    pub fn new(records: Records, config: Config, colors: ColorMap) -> (t: Table)
        ensures
            t.records == records,
            t.config == config,
            t.colors == colors,
    {
        Table { records, config, colors }
    }

    /// Decides the snapshot's structural requirements exactly: the grid
    /// is rectangular and the spans are non-empty, in bounds and
    /// pairwise disjoint.
    pub fn check_wf(&self) -> (b: bool)
        ensures
            b == self.wf(),
    {
        let nrows = self.records.row_count();
        let ncols = self.records.col_count();
        let mut r: usize = 0;
        while r < nrows
            invariant
                r <= nrows,
                nrows as int == self.records.nrows(),
                ncols as int == self.records.ncols(),
                forall|i: int|
                    0 <= i < r ==> #[trigger] self.records.rows@[i]@.len() as int
                        == self.records.ncols(),
            decreases nrows - r,
        {
            if self.records.rows[r].len() != ncols {
                proof {
                    assert(self.records.rows@[r as int]@.len() as int != self.records.ncols());
                }
                return false;
            }
            r = r + 1;
        }
        let mut i: usize = 0;
        while i < self.config.spans.len()
            invariant
                i <= self.config.spans@.len(),
                nrows as int == self.records.nrows(),
                ncols as int == self.records.ncols(),
                forall|j: int|
                    0 <= j < i ==> {
                        &&& (#[trigger] self.config.spans@[j]).rows >= 1
                        &&& self.config.spans@[j].cols >= 1
                        &&& self.config.spans@[j].row + self.config.spans@[j].rows
                            <= self.records.nrows()
                        &&& self.config.spans@[j].col + self.config.spans@[j].cols
                            <= self.records.ncols()
                    },
                forall|j1: int, j2: int|
                    0 <= j1 < j2 < i ==> crate::grid::spans_disjoint(
                        #[trigger] self.config.spans@[j1],
                        #[trigger] self.config.spans@[j2],
                    ),
            decreases self.config.spans@.len() - i,
        {
            let s = self.config.spans[i];
            if !(s.rows >= 1 && s.cols >= 1 && s.rows <= nrows && s.row <= nrows - s.rows
                && s.cols <= ncols && s.col <= ncols - s.cols) {
                proof {
                    assert(!spans_wf(
                        self.config.spans@,
                        self.records.nrows(),
                        self.records.ncols(),
                    )) by {
                        if spans_wf(
                            self.config.spans@,
                            self.records.nrows(),
                            self.records.ncols(),
                        ) {
                            assert((#[trigger] self.config.spans@[i as int]).rows >= 1);
                        }
                    }
                }
                return false;
            }
            let mut j: usize = 0;
            while j < i
                invariant
                    j <= i,
                    i < self.config.spans@.len(),
                    s == self.config.spans@[i as int],
                    s.row + s.rows <= self.records.nrows(),
                    s.col + s.cols <= self.records.ncols(),
                    nrows as int == self.records.nrows(),
                    ncols as int == self.records.ncols(),
                    forall|j0: int|
                        0 <= j0 < i ==> {
                            &&& (#[trigger] self.config.spans@[j0]).rows >= 1
                            &&& self.config.spans@[j0].cols >= 1
                            &&& self.config.spans@[j0].row + self.config.spans@[j0].rows
                                <= self.records.nrows()
                            &&& self.config.spans@[j0].col + self.config.spans@[j0].cols
                                <= self.records.ncols()
                        },
                    forall|j0: int|
                        0 <= j0 < j ==> crate::grid::spans_disjoint(
                            #[trigger] self.config.spans@[j0],
                            self.config.spans@[i as int],
                        ),
                decreases i - j,
            {
                let t = self.config.spans[j];
                let dis = t.row + t.rows <= s.row || s.row + s.rows <= t.row || t.col + t.cols
                    <= s.col || s.col + s.cols <= t.col;
                if !dis {
                    proof {
                        assert(t == self.config.spans@[j as int]);
                        assert(!crate::grid::spans_disjoint(
                            self.config.spans@[j as int],
                            self.config.spans@[i as int],
                        ));
                        assert(!spans_wf(
                            self.config.spans@,
                            self.records.nrows(),
                            self.records.ncols(),
                        )) by {
                            if spans_wf(
                                self.config.spans@,
                                self.records.nrows(),
                                self.records.ncols(),
                            ) {
                                assert(crate::grid::spans_disjoint(
                                    #[trigger] self.config.spans@[j as int],
                                    #[trigger] self.config.spans@[i as int],
                                ));
                            }
                        }
                    }
                    return false;
                }
                j = j + 1;
            }
            i = i + 1;
        }
        true
    }

    /// One full layout pass: the dimension table is recomputed from
    /// scratch and the traversal stream is returned.
    pub fn instructions(&self) -> (out: Vec<Instr>)
        requires
            self.wf(),
            dims_fit(self.records, self.config),
        ensures
            views(out@) == spec_render(
                self.records,
                self.config,
                spec_widths(self.records, self.config),
                spec_heights(self.records, self.config),
                self.colors,
            ),
    {
        let dims = estimate(&self.records, &self.config);
        build(&self.records, &self.config, &dims, &self.colors)
    }

    /// Renders the table onto the target rectangle of the given surface.
    /// An in-memory surface never fails, so the render always succeeds;
    /// every surface cell outside the rectangle keeps its previous
    /// content.
    pub fn render(&self, area: Rect, surface: Surface) -> (res: Result<Surface, WriteError>)
        requires
            self.wf(),
            dims_fit(self.records, self.config),
            sv_wf(surface@),
        ensures
            res is Ok,
            res matches Ok(s) ==> s@ == apply_all(
                AdapterV { surface: surface@, rect: area, row: 0, col: 0 },
                spec_render(
                    self.records,
                    self.config,
                    spec_widths(self.records, self.config),
                    spec_heights(self.records, self.config),
                    self.colors,
                ),
            ).surface,
            res matches Ok(s) ==> {
                &&& sv_wf(s@)
                &&& s@.width == surface@.width
                &&& s@.height == surface@.height
                &&& forall|y: int, x: int|
                    0 <= y < surface@.height && 0 <= x < surface@.width && !in_rect(area, y, x)
                        ==> #[trigger] sv_at(s@, y, x) == sv_at(surface@, y, x)
            },
    {
        let instrs = self.instructions();
        let mut adapter = SurfaceAdapter::new(surface, area);
        let ghost a0 = adapter@;
        let r = adapter.apply(&instrs);
        proof {
            assert forall|k: int| 0 <= k < views(instrs@).len() implies crate::writer::instr_wf(
                #[trigger] views(instrs@)[k],
            ) by {
                assert(views(instrs@)[k] == instrs@[k]@);
            }
            assert forall|y: int, x: int|
                0 <= y < a0.surface.height && 0 <= x < a0.surface.width && !in_rect(area, y, x)
                    implies #[trigger] sv_at(apply_all(a0, views(instrs@)).surface, y, x) == sv_at(
                a0.surface,
                y,
                x,
            ) by {
                lemma_apply_all_outside(a0, views(instrs@), y, x);
            }
            crate::writer::lemma_apply_all_dims(a0, views(instrs@));
        }
        match r {
            Result::Ok(()) => Result::Ok(adapter.into_surface()),
            Result::Err(e) => Result::Err(e),
        }
    }
}

/// Determinism of the whole pipeline: the rendered instruction stream is
/// a pure function of the grid snapshot alone, so two renders of equal
/// snapshots emit identical streams.
pub proof fn lemma_render_deterministic(t1: Table, t2: Table)
    requires
        t1.records == t2.records,
        t1.config == t2.config,
        t1.colors == t2.colors,
    ensures
        spec_render(
            t1.records,
            t1.config,
            spec_widths(t1.records, t1.config),
            spec_heights(t1.records, t1.config),
            t1.colors,
        ) == spec_render(
            t2.records,
            t2.config,
            spec_widths(t2.records, t2.config),
            spec_heights(t2.records, t2.config),
            t2.colors,
        ),
{
}

/// The host-side shell around one table widget.
pub struct App {
    pub table: Table,
}

impl App {
    /// Wraps a table widget for the host loop to drive.
    pub fn new(table: Table) -> (a: App)
        ensures
            a.table == table,
    {
        App { table }
    }
}

} // verus!

