//! The writer protocol and the surface adapter.
//!
//! The `Writer` trait is the narrow cursor-based seam between traversal
//! and any concrete output target. `SurfaceAdapter` is the adapter bound
//! to one target rectangle of one character surface: it translates the
//! cursor into absolute coordinates and silently clips every write that
//! falls outside the rectangle or the surface.

use vstd::prelude::*;
use crate::grid::ColorPair;
use crate::traverse::{Instr, InstrV, spaces, spaces_run, views};

verus! {

/// The single failure kind a writer may report.
#[derive(Clone, Copy, Debug, PartialEq, Eq, Structural)]
pub struct WriteError;

/// A target region of a surface, by origin and size.
#[derive(Clone, Copy, Debug, PartialEq, Eq, Structural)]
pub struct Rect {
    pub x: usize,
    pub y: usize,
    pub width: usize,
    pub height: usize,
}

/// Whether absolute surface position `(y, x)` lies inside `rect`.
pub open spec fn in_rect(rect: Rect, y: int, x: int) -> bool {
    &&& rect.y <= y < rect.y + rect.height
    &&& rect.x <= x < rect.x + rect.width
}

/// A character buffer, row-major.
#[derive(Clone, Debug)]
pub struct Surface {
    pub width: usize,
    pub height: usize,
    pub cells: Vec<char>,
}

/// The mathematical view of a surface.
pub struct SurfaceV {
    pub width: int,
    pub height: int,
    pub cells: Seq<char>,
}

impl View for Surface {
    type V = SurfaceV;

    open spec fn view(&self) -> SurfaceV {
        SurfaceV { width: self.width as int, height: self.height as int, cells: self.cells@ }
    }
}

/// Well-formedness: the buffer holds exactly one cell per position.
pub open spec fn sv_wf(v: SurfaceV) -> bool {
    &&& v.width >= 0
    &&& v.height >= 0
    &&& v.cells.len() == v.width * v.height
}

/// The character at absolute position `(y, x)`.
pub open spec fn sv_at(v: SurfaceV, y: int, x: int) -> char {
    v.cells[y * v.width + x]
}

/// A row-major index is in bounds and injective over positions.
pub proof fn lemma_index_bound(w: int, h: int, y: int, x: int)
    requires
        0 <= y < h,
        0 <= x < w,
    ensures
        0 <= y * w + x < h * w,
        0 <= y * w + x < w * h,
{
    assert(0 <= y * w + x < h * w && 0 <= y * w + x < w * h) by (nonlinear_arith)
        requires
            0 <= y < h,
            0 <= x < w,
    ;
}

pub proof fn lemma_index_inj(w: int, y1: int, x1: int, y2: int, x2: int)
    requires
        0 <= x1 < w,
        0 <= x2 < w,
        0 <= y1,
        0 <= y2,
        y1 * w + x1 == y2 * w + x2,
    ensures
        y1 == y2,
        x1 == x2,
{
    assert(y1 == y2 && x1 == x2) by (nonlinear_arith)
        requires
            0 <= x1 < w,
            0 <= x2 < w,
            0 <= y1,
            0 <= y2,
            y1 * w + x1 == y2 * w + x2,
    ;
}

/// One clipped character write at cursor `(row, col)` of `rect`.
pub open spec fn put(v: SurfaceV, rect: Rect, row: int, col: int, ch: char) -> SurfaceV {
    if 0 <= row < rect.height && 0 <= col < rect.width && rect.y + row < v.height && rect.x + col
        < v.width {
        SurfaceV {
            width: v.width,
            height: v.height,
            cells: v.cells.update((rect.y + row) * v.width + (rect.x + col), ch),
        }
    } else {
        v
    }
}

/// A clipped run of character writes, one column step per character.
pub open spec fn write_chars(v: SurfaceV, rect: Rect, row: int, col: int, text: Seq<char>) -> SurfaceV
    decreases text.len(),
{
    if text.len() == 0 {
        v
    } else {
        write_chars(put(v, rect, row, col, text[0]), rect, row, col + 1, text.drop_first())
    }
}

/// The column cursor after a write: it advances by the declared display
/// width whether or not the glyphs were clipped, saturating only at the
/// machine word's end.
pub open spec fn adv_col(col: int, width: int) -> int {
    if col + width > usize::MAX as int {
        usize::MAX as int
    } else {
        col + width
    }
}

/// The row cursor after a row-break: it advances by one, saturating only
/// at the machine word's end. A row-break is the only instruction that
/// moves the row cursor.
pub open spec fn adv_row(row: int) -> int {
    if row + 1 > usize::MAX as int {
        usize::MAX as int
    } else {
        row + 1
    }
}

impl Surface {
    /// A blank surface of the given size.
    pub fn new(width: usize, height: usize) -> (s: Surface)
        requires
            width * height <= usize::MAX,
        ensures
            sv_wf(s@),
            s.width == width,
            s.height == height,
            forall|y: int, x: int|
                0 <= y < height && 0 <= x < width ==> #[trigger] sv_at(s@, y, x) == ' ',
    {
        let n = width * height;
        let cells = spaces_run(n);
        let s = Surface { width, height, cells };
        proof {
            assert forall|y: int, x: int| 0 <= y < height && 0 <= x < width implies #[trigger] sv_at(
                s@,
                y,
                x,
            ) == ' ' by {
                lemma_index_bound(width as int, height as int, y, x);
                assert(spaces(n as int)[y * (width as int) + x] == ' ');
            }
        }
        s
    }

    /// Reads one cell.
    pub fn get(&self, y: usize, x: usize) -> (c: char)
        requires
            sv_wf(self@),
            y < self.height,
            x < self.width,
        ensures
            c == sv_at(self@, y as int, x as int),
    {
        let n = self.cells.len();
        proof {
            lemma_index_bound(self.width as int, self.height as int, y as int, x as int);
            assert(y * self.width + x < n);
        }
        self.cells[y * self.width + x]
    }
}

/// A write that lands inside the rectangle stays inside it; every cell
/// outside the rectangle keeps its previous character.
pub proof fn lemma_put_outside(v: SurfaceV, rect: Rect, row: int, col: int, ch: char, y: int, x: int)
    requires
        sv_wf(v),
        0 <= y < v.height,
        0 <= x < v.width,
        !in_rect(rect, y, x),
    ensures
        sv_at(put(v, rect, row, col, ch), y, x) == sv_at(v, y, x),
        sv_wf(put(v, rect, row, col, ch)),
{
    if 0 <= row < rect.height && 0 <= col < rect.width && rect.y + row < v.height && rect.x + col
        < v.width {
        let wy = rect.y + row;
        let wx = rect.x + col;
        lemma_index_bound(v.width, v.height, wy, wx);
        lemma_index_bound(v.width, v.height, y, x);
        if y * v.width + x == wy * v.width + wx {
            lemma_index_inj(v.width, y, x, wy, wx);
        }
    }
}

/// A whole clipped text run leaves everything outside the rectangle
/// untouched.
pub proof fn lemma_write_chars_outside(
    v: SurfaceV,
    rect: Rect,
    row: int,
    col: int,
    text: Seq<char>,
    y: int,
    x: int,
)
    requires
        sv_wf(v),
        0 <= y < v.height,
        0 <= x < v.width,
        !in_rect(rect, y, x),
    ensures
        sv_at(write_chars(v, rect, row, col, text), y, x) == sv_at(v, y, x),
        sv_wf(write_chars(v, rect, row, col, text)),
    decreases text.len(),
{
    if text.len() > 0 {
        lemma_put_outside(v, rect, row, col, text[0], y, x);
        lemma_write_chars_outside(
            put(v, rect, row, col, text[0]),
            rect,
            row,
            col + 1,
            text.drop_first(),
            y,
            x,
        );
    }
}

/// The dimensions of a surface never change under writes.
pub proof fn lemma_write_chars_dims(v: SurfaceV, rect: Rect, row: int, col: int, text: Seq<char>)
    requires
        sv_wf(v),
    ensures
        write_chars(v, rect, row, col, text).width == v.width,
        write_chars(v, rect, row, col, text).height == v.height,
        sv_wf(write_chars(v, rect, row, col, text)),
    decreases text.len(),
{
    if text.len() > 0 {
        let p = put(v, rect, row, col, text[0]);
        if 0 <= row < rect.height && 0 <= col < rect.width && rect.y + row < v.height && rect.x
            + col < v.width {
            lemma_index_bound(v.width, v.height, rect.y + row, rect.x + col);
        }
        assert(sv_wf(p));
        lemma_write_chars_dims(p, rect, row, col + 1, text.drop_first());
    }
}

} // verus!

verus! {

/// The surface adapter: one target rectangle, one backing surface, and a
/// relative cursor. The ghost history records every protocol call that
/// succeeded, in order.
#[derive(Clone)]
pub struct SurfaceAdapter {
    pub surface: Surface,
    pub rect: Rect,
    pub row: usize,
    pub col: usize,
    pub hist: Ghost<Seq<InstrV>>,
}

/// The mathematical view of an adapter.
pub struct AdapterV {
    pub surface: SurfaceV,
    pub rect: Rect,
    pub row: int,
    pub col: int,
}

impl View for SurfaceAdapter {
    type V = AdapterV;

    open spec fn view(&self) -> AdapterV {
        AdapterV {
            surface: self.surface@,
            rect: self.rect,
            row: self.row as int,
            col: self.col as int,
        }
    }
}

/// Adapter well-formedness: a sound surface and a machine-word cursor.
pub open spec fn av_wf(a: AdapterV) -> bool {
    &&& sv_wf(a.surface)
    &&& 0 <= a.row <= usize::MAX as int
    &&& 0 <= a.col <= usize::MAX as int
}

/// An instruction the adapter can take: write widths are sizes.
pub open spec fn instr_wf(i: InstrV) -> bool {
    match i {
        InstrV::WriteStr { text, width } => width >= 0,
        _ => true,
    }
}

pub open spec fn instrs_wf(s: Seq<InstrV>) -> bool {
    forall|k: int| 0 <= k < s.len() ==> instr_wf(#[trigger] s[k])
}

/// What one instruction does to the adapter: text writes print and move
/// the column cursor, row-breaks move the row cursor, everything else
/// leaves the surface alone on a plain character target.
pub open spec fn apply_one(a: AdapterV, i: InstrV) -> AdapterV {
    match i {
        InstrV::Start => a,
        InstrV::Finish => a,
        InstrV::ColorStart { color } => a,
        InstrV::ColorStop { color } => a,
        InstrV::WriteStr { text, width } => AdapterV {
            surface: write_chars(a.surface, a.rect, a.row, a.col, text),
            rect: a.rect,
            row: a.row,
            col: adv_col(a.col, width),
        },
        InstrV::Reset => AdapterV { surface: a.surface, rect: a.rect, row: adv_row(a.row), col: 0 },
    }
}

/// What a whole instruction stream does, first instruction first.
pub open spec fn apply_all(a: AdapterV, s: Seq<InstrV>) -> AdapterV
    decreases s.len(),
{
    if s.len() == 0 {
        a
    } else {
        apply_all(apply_one(a, s[0]), s.drop_first())
    }
}

pub proof fn lemma_apply_all_snoc(a: AdapterV, s: Seq<InstrV>, i: InstrV)
    ensures
        apply_all(a, s.push(i)) == apply_one(apply_all(a, s), i),
    decreases s.len(),
{
    let t = s.push(i);
    if s.len() == 0 {
        assert(t.drop_first() =~= Seq::<InstrV>::empty());
        assert(t[0] == i);
        assert(apply_all(a, t) == apply_all(apply_one(a, i), t.drop_first()));
        assert(apply_all(apply_one(a, i), t.drop_first()) == apply_one(a, i));
        assert(apply_all(a, s) == a);
    } else {
        assert(t.drop_first() =~= s.drop_first().push(i));
        assert(t[0] == s[0]);
        assert(apply_all(a, t) == apply_all(apply_one(a, s[0]), t.drop_first()));
        lemma_apply_all_snoc(apply_one(a, s[0]), s.drop_first(), i);
        assert(apply_all(a, s) == apply_all(apply_one(a, s[0]), s.drop_first()));
    }
}

pub proof fn lemma_write_chars_snoc(
    v: SurfaceV,
    rect: Rect,
    row: int,
    col: int,
    text: Seq<char>,
    ch: char,
)
    ensures
        write_chars(v, rect, row, col, text.push(ch)) == put(
            write_chars(v, rect, row, col, text),
            rect,
            row,
            col + text.len(),
            ch,
        ),
    decreases text.len(),
{
    let t = text.push(ch);
    if text.len() == 0 {
        assert(t.drop_first() =~= Seq::<char>::empty());
        assert(t[0] == ch);
        assert(write_chars(v, rect, row, col, t) == write_chars(
            put(v, rect, row, col, ch),
            rect,
            row,
            col + 1,
            t.drop_first(),
        ));
        assert(write_chars(put(v, rect, row, col, ch), rect, row, col + 1, t.drop_first()) == put(
            v,
            rect,
            row,
            col,
            ch,
        ));
        assert(write_chars(v, rect, row, col, text) == v);
    } else {
        assert(t.drop_first() =~= text.drop_first().push(ch));
        assert(t[0] == text[0]);
        assert(write_chars(v, rect, row, col, t) == write_chars(
            put(v, rect, row, col, text[0]),
            rect,
            row,
            col + 1,
            t.drop_first(),
        ));
        lemma_write_chars_snoc(
            put(v, rect, row, col, text[0]),
            rect,
            row,
            col + 1,
            text.drop_first(),
            ch,
        );
        assert(write_chars(v, rect, row, col, text) == write_chars(
            put(v, rect, row, col, text[0]),
            rect,
            row,
            col + 1,
            text.drop_first(),
        ));
    }
}

/// One instruction keeps the adapter well formed and never touches a
/// surface cell outside the target rectangle.
pub proof fn lemma_apply_one_outside(a: AdapterV, i: InstrV, y: int, x: int)
    requires
        av_wf(a),
        instr_wf(i),
        0 <= y < a.surface.height,
        0 <= x < a.surface.width,
        !in_rect(a.rect, y, x),
    ensures
        av_wf(apply_one(a, i)),
        apply_one(a, i).rect == a.rect,
        apply_one(a, i).surface.width == a.surface.width,
        apply_one(a, i).surface.height == a.surface.height,
        sv_at(apply_one(a, i).surface, y, x) == sv_at(a.surface, y, x),
{
    match i {
        InstrV::WriteStr { text, width } => {
            lemma_write_chars_outside(a.surface, a.rect, a.row, a.col, text, y, x);
            lemma_write_chars_dims(a.surface, a.rect, a.row, a.col, text);
        },
        _ => {},
    }
}

/// A whole stream keeps the adapter well formed and the surface's size.
pub proof fn lemma_apply_all_dims(a: AdapterV, s: Seq<InstrV>)
    requires
        av_wf(a),
        instrs_wf(s),
    ensures
        av_wf(apply_all(a, s)),
        apply_all(a, s).rect == a.rect,
        apply_all(a, s).surface.width == a.surface.width,
        apply_all(a, s).surface.height == a.surface.height,
    decreases s.len(),
{
    if s.len() > 0 {
        match s[0] {
            InstrV::WriteStr { text, width } => {
                lemma_write_chars_dims(a.surface, a.rect, a.row, a.col, text);
            },
            _ => {},
        }
        assert(instrs_wf(s.drop_first()));
        lemma_apply_all_dims(apply_one(a, s[0]), s.drop_first());
    }
}

/// Clipping: applying any well-formed instruction stream leaves every
/// surface cell outside the target rectangle exactly as it was.
pub proof fn lemma_apply_all_outside(a: AdapterV, s: Seq<InstrV>, y: int, x: int)
    requires
        av_wf(a),
        instrs_wf(s),
        0 <= y < a.surface.height,
        0 <= x < a.surface.width,
        !in_rect(a.rect, y, x),
    ensures
        av_wf(apply_all(a, s)),
        apply_all(a, s).rect == a.rect,
        apply_all(a, s).surface.width == a.surface.width,
        apply_all(a, s).surface.height == a.surface.height,
        sv_at(apply_all(a, s).surface, y, x) == sv_at(a.surface, y, x),
    decreases s.len(),
{
    if s.len() > 0 {
        lemma_apply_one_outside(a, s[0], y, x);
        assert(instrs_wf(s.drop_first()));
        lemma_apply_all_outside(apply_one(a, s[0]), s.drop_first(), y, x);
    }
}

} // verus!

verus! {

impl SurfaceAdapter {
    /// Binds a fresh adapter to a surface and a target rectangle, cursor
    /// at the rectangle's top-left.
    pub fn new(surface: Surface, rect: Rect) -> (a: SurfaceAdapter)
        requires
            sv_wf(surface@),
        ensures
            av_wf(a@),
            a@.surface == surface@,
            a@.rect == rect,
            a@.row == 0,
            a@.col == 0,
            a.hist@ == Seq::<InstrV>::empty(),
    {
        SurfaceAdapter { surface, rect, row: 0, col: 0, hist: Ghost(Seq::empty()) }
    }

    /// Releases the finished surface.
    pub fn into_surface(self) -> (s: Surface)
        ensures
            s@ == self@.surface,
    {
        self.surface
    }

    /// Prints a text run at the cursor, clipped to the rectangle and the
    /// surface, then advances the column cursor by the declared width.
    pub fn put_str(&mut self, text: &Vec<char>, width: usize)
        requires
            av_wf(old(self)@),
        ensures
            av_wf(final(self)@),
            final(self)@ == apply_one(
                old(self)@,
                InstrV::WriteStr { text: text@, width: width as int },
            ),
            final(self).hist@ == old(self).hist@,
    {
        let ghost a0 = self@;
        let ghost h0 = self.hist@;
        let mut i: usize = 0;
        proof {
            assert(text@.take(0) =~= Seq::<char>::empty());
        }
        while i < text.len()
            invariant
                i <= text@.len(),
                av_wf(a0),
                self.rect == a0.rect,
                self.row as int == a0.row,
                self.col as int == a0.col,
                self.hist@ == h0,
                self.surface@.width == a0.surface.width,
                self.surface@.height == a0.surface.height,
                sv_wf(self.surface@),
                self.surface@ == write_chars(a0.surface, a0.rect, a0.row, a0.col, text@.take(i as int)),
            decreases text@.len() - i,
        {
            let ghost prev = self.surface@;
            let ch = text[i];
            let within = self.row < self.rect.height && self.col < self.rect.width && i
                < self.rect.width - self.col && self.rect.y < self.surface.height && self.row
                < self.surface.height - self.rect.y && self.rect.x < self.surface.width && self.col
                + i < self.surface.width - self.rect.x;
            if within {
                let y = self.rect.y + self.row;
                let x = self.rect.x + self.col + i;
                let n = self.surface.cells.len();
                proof {
                    lemma_index_bound(
                        self.surface@.width,
                        self.surface@.height,
                        y as int,
                        x as int,
                    );
                    assert(y * self.surface@.width + x < n);
                }
                let idx = y * self.surface.width + x;
                self.surface.cells[idx] = ch;
                proof {
                    assert(self.surface@ == put(prev, a0.rect, a0.row, a0.col + i, ch));
                }
            } else {
                proof {
                    assert(self.surface@ == put(prev, a0.rect, a0.row, a0.col + i, ch));
                }
            }
            proof {
                lemma_write_chars_snoc(a0.surface, a0.rect, a0.row, a0.col, text@.take(i as int), ch);
                assert(text@.take(i + 1) =~= text@.take(i as int).push(ch));
                lemma_write_chars_dims(a0.surface, a0.rect, a0.row, a0.col, text@.take(i + 1));
            }
            i = i + 1;
        }
        proof {
            assert(text@.take(text@.len() as int) =~= text@);
        }
        if width > usize::MAX - self.col {
            self.col = usize::MAX;
        } else {
            self.col = self.col + width;
        }
    }

    /// Prints one character at the cursor and advances the column by one.
    pub fn put_char(&mut self, c: char)
        requires
            av_wf(old(self)@),
        ensures
            av_wf(final(self)@),
            final(self)@ == apply_one(old(self)@, InstrV::WriteStr { text: seq![c], width: 1 }),
            final(self).hist@ == old(self).hist@,
    {
        let mut one: Vec<char> = Vec::new();
        one.push(c);
        proof {
            assert(one@ =~= seq![c]);
        }
        self.put_str(&one, 1);
    }

    /// Moves to the next output row, column zero. This is the only
    /// operation that advances the row cursor.
    pub fn next_row(&mut self)
        requires
            av_wf(old(self)@),
        ensures
            av_wf(final(self)@),
            final(self)@ == apply_one(old(self)@, InstrV::Reset),
            final(self).hist@ == old(self).hist@,
    {
        if self.row < usize::MAX {
            self.row = self.row + 1;
        }
        self.col = 0;
    }

    /// Runs a whole instruction stream against the surface. A plain
    /// in-memory surface never fails, so the result is always success.
    pub fn apply(&mut self, instrs: &Vec<Instr>) -> (r: Result<(), WriteError>)
        requires
            av_wf(old(self)@),
        ensures
            av_wf(final(self)@),
            r is Ok,
            final(self)@ == apply_all(old(self)@, views(instrs@)),
    {
        let ghost a0 = self@;
        proof {
            assert(views(instrs@).take(0) =~= Seq::<InstrV>::empty());
        }
        let mut i: usize = 0;
        while i < instrs.len()
            invariant
                i <= instrs@.len(),
                av_wf(self@),
                self@ == apply_all(a0, views(instrs@).take(i as int)),
            decreases instrs@.len() - i,
        {
            let ghost pre = self@;
            match &instrs[i] {
                Instr::Start => {},
                Instr::Finish => {},
                Instr::WriteStr { text, width } => {
                    self.put_str(text, *width);
                },
                Instr::ColorStart { color } => {},
                Instr::ColorStop { color } => {},
                Instr::Reset => {
                    self.next_row();
                },
            }
            proof {
                assert(self@ == apply_one(pre, instrs@[i as int]@));
                lemma_apply_all_snoc(a0, views(instrs@).take(i as int), instrs@[i as int]@);
                assert(views(instrs@).take(i + 1) =~= views(instrs@).take(i as int).push(
                    instrs@[i as int]@,
                ));
            }
            i = i + 1;
        }
        proof {
            assert(views(instrs@).take(instrs@.len() as int) =~= views(instrs@));
        }
        Ok(())
    }
}

/// The writer protocol: the minimal cursor-based capability interface
/// between traversal and an output target. `inv` is whatever invariant an
/// adapter needs its callers to maintain between calls; `log` is the
/// history of protocol calls the writer has accepted, so a successful
/// call appends exactly its own instruction.
pub trait Writer {
    spec fn inv(&self) -> bool;

    spec fn log(&self) -> Seq<InstrV>;

    fn start(&mut self) -> (r: Result<(), WriteError>)
        requires
            old(self).inv(),
        ensures
            final(self).inv(),
            r is Ok ==> final(self).log() == old(self).log().push(InstrV::Start),
            r is Err ==> final(self).log() == old(self).log(),
    ;

    fn finish(&mut self) -> (r: Result<(), WriteError>)
        requires
            old(self).inv(),
        ensures
            final(self).inv(),
            r is Ok ==> final(self).log() == old(self).log().push(InstrV::Finish),
            r is Err ==> final(self).log() == old(self).log(),
    ;

    fn write_str(&mut self, text: &Vec<char>, width: usize) -> (r: Result<(), WriteError>)
        requires
            old(self).inv(),
        ensures
            final(self).inv(),
            r is Ok ==> final(self).log() == old(self).log().push(
                InstrV::WriteStr { text: text@, width: width as int },
            ),
            r is Err ==> final(self).log() == old(self).log(),
    ;

    fn write_char(&mut self, c: char) -> (r: Result<(), WriteError>)
        requires
            old(self).inv(),
        ensures
            final(self).inv(),
            r is Ok ==> final(self).log() == old(self).log().push(
                InstrV::WriteStr { text: seq![c], width: 1 },
            ),
            r is Err ==> final(self).log() == old(self).log(),
    ;

    fn reset(&mut self) -> (r: Result<(), WriteError>)
        requires
            old(self).inv(),
        ensures
            final(self).inv(),
            r is Ok ==> final(self).log() == old(self).log().push(InstrV::Reset),
            r is Err ==> final(self).log() == old(self).log(),
    ;

    fn colorize_start(&mut self, color: ColorPair) -> (r: Result<(), WriteError>)
        requires
            old(self).inv(),
        ensures
            final(self).inv(),
            r is Ok ==> final(self).log() == old(self).log().push(
                InstrV::ColorStart { color },
            ),
            r is Err ==> final(self).log() == old(self).log(),
    ;

    fn colorize_stop(&mut self, color: ColorPair) -> (r: Result<(), WriteError>)
        requires
            old(self).inv(),
        ensures
            final(self).inv(),
            r is Ok ==> final(self).log() == old(self).log().push(
                InstrV::ColorStop { color },
            ),
            r is Err ==> final(self).log() == old(self).log(),
    ;
}

impl Writer for SurfaceAdapter {
    open spec fn inv(&self) -> bool {
        av_wf(self@)
    }

    open spec fn log(&self) -> Seq<InstrV> {
        self.hist@
    }

    fn start(&mut self) -> (r: Result<(), WriteError>) {
        self.hist = Ghost(self.hist@.push(InstrV::Start));
        Ok(())
    }

    fn finish(&mut self) -> (r: Result<(), WriteError>) {
        self.hist = Ghost(self.hist@.push(InstrV::Finish));
        Ok(())
    }

    fn write_str(&mut self, text: &Vec<char>, width: usize) -> (r: Result<(), WriteError>) {
        self.put_str(text, width);
        self.hist = Ghost(self.hist@.push(InstrV::WriteStr { text: text@, width: width as int }));
        Ok(())
    }

    fn write_char(&mut self, c: char) -> (r: Result<(), WriteError>) {
        self.put_char(c);
        self.hist = Ghost(self.hist@.push(InstrV::WriteStr { text: seq![c], width: 1 }));
        Ok(())
    }

    fn reset(&mut self) -> (r: Result<(), WriteError>) {
        self.next_row();
        self.hist = Ghost(self.hist@.push(InstrV::Reset));
        Ok(())
    }

    fn colorize_start(&mut self, color: ColorPair) -> (r: Result<(), WriteError>) {
        self.hist = Ghost(self.hist@.push(InstrV::ColorStart { color }));
        Ok(())
    }

    fn colorize_stop(&mut self, color: ColorPair) -> (r: Result<(), WriteError>) {
        self.hist = Ghost(self.hist@.push(InstrV::ColorStop { color }));
        Ok(())
    }
}

/// Drives an instruction stream through any writer, stopping at the
/// first call the writer refuses and handing that failure back. On the
/// empty stream no writer call can refuse, so success is owed. On
/// success the writer accepted exactly the given stream, in order; on
/// failure it accepted exactly a proper prefix of it.
pub fn run_writer<W: Writer>(w: &mut W, instrs: &Vec<Instr>) -> (r: Result<(), WriteError>)
    requires
        old(w).inv(),
    ensures
        final(w).inv(),
        instrs@.len() == 0 ==> r is Ok,
        r is Err ==> instrs@.len() > 0,
        r is Ok ==> final(w).log() == old(w).log() + views(instrs@),
        r is Err ==> exists|k: int|
            0 <= k < instrs@.len() && final(w).log() == old(w).log() + #[trigger] views(
                instrs@,
            ).take(k),
{
    let ghost l0 = old(w).log();
    proof {
        assert(l0 + views(instrs@).take(0) =~= l0);
    }
    let mut res: Result<(), WriteError> = Ok(());
    let mut i: usize = 0;
    while i < instrs.len() && res.is_ok()
        invariant
            i <= instrs@.len(),
            w.inv(),
            w.log() == l0 + views(instrs@).take(i as int),
            res is Err ==> i < instrs@.len(),
        decreases
                instrs@.len() - i,
                (if res is Ok {
                    1int
                } else {
                    0int
                }),
    {
        let step = match &instrs[i] {
            Instr::Start => w.start(),
            Instr::Finish => w.finish(),
            Instr::WriteStr { text, width } => w.write_str(text, *width),
            Instr::ColorStart { color } => w.colorize_start(*color),
            Instr::ColorStop { color } => w.colorize_stop(*color),
            Instr::Reset => w.reset(),
        };
        if step.is_err() {
            res = step;
        } else {
            proof {
                assert((l0 + views(instrs@).take(i as int)).push(instrs@[i as int]@) =~= l0
                    + views(instrs@).take(i + 1));
            }
            i = i + 1;
        }
    }
    proof {
        if res is Err {
            assert(l0 == old(w).log());
            assert(exists|k: int|
                0 <= k < instrs@.len() && w.log() == old(w).log() + #[trigger] views(
                    instrs@,
                ).take(k)) by {
                assert(w.log() == old(w).log() + views(instrs@).take(i as int));
            }
        } else {
            assert(views(instrs@).take(instrs@.len() as int) =~= views(instrs@));
        }
    }
    res
}

} // verus!
