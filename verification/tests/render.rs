use table_render::{App, Position, Table};
use table_render::dimension::estimate;
use table_render::grid::{
    Cell, CellConfig, ColorMap, ColorPair, Config, HAlign, Records, SpanDesc,
};
use table_render::traverse::Instr;
use table_render::writer::{Rect, Surface, SurfaceAdapter};

fn cell(s: &str) -> Cell {
    Cell::new(vec![s.chars().collect()])
}

fn grid(rows: Vec<Vec<&str>>) -> Records {
    let mut out: Vec<Vec<Cell>> = Vec::new();
    for r in rows {
        let mut row: Vec<Cell> = Vec::new();
        for s in r {
            row.push(cell(s));
        }
        out.push(row);
    }
    Records::new(out)
}

fn table(recs: Records) -> Table {
    Table::new(recs, Config::new(CellConfig::plain()), ColorMap::new())
}

fn row_text(s: &Surface, y: usize) -> String {
    let mut out = String::new();
    for x in 0..s.width {
        out.push(s.get(y, x));
    }
    out
}

fn count_resets(instrs: &[Instr]) -> usize {
    instrs.iter().filter(|i| matches!(i, Instr::Reset)).count()
}

fn count_writes(instrs: &[Instr]) -> usize {
    instrs
        .iter()
        .filter(|i| matches!(i, Instr::WriteStr { .. }))
        .count()
}

#[test]
fn simple_stream_shape() {
    let t = table(grid(vec![vec!["ab", "c"]]));
    let instrs = t.instructions();
    assert!(matches!(instrs[0], Instr::Start));
    assert!(matches!(instrs.last().unwrap(), Instr::Finish));
    assert_eq!(count_writes(&instrs), 2);
    assert_eq!(count_resets(&instrs), 1);
}

#[test]
fn absorbed_positions_emit_no_write() {
    let recs = grid(vec![vec!["ab", ""]]);
    let mut cfg = Config::new(CellConfig::plain());
    cfg.push_span(SpanDesc { row: 0, col: 0, rows: 1, cols: 2 });
    let t = Table::new(recs, cfg, ColorMap::new());
    let instrs = t.instructions();
    // Two logical columns, but the merged row emits exactly one write.
    assert_eq!(count_writes(&instrs), 1);
    assert_eq!(count_resets(&instrs), 1);
}

#[test]
fn reset_count_equals_total_height() {
    let tall = Cell::new(vec!["one".chars().collect(), "two".chars().collect()]);
    let recs = Records::new(vec![vec![tall], vec![cell("x")]]);
    let t = table(recs);
    let dims = estimate(&t.records, &t.config);
    let total: usize = dims.heights.iter().sum();
    assert_eq!(total, 3);
    let instrs = t.instructions();
    assert_eq!(count_resets(&instrs), total);
}

#[test]
fn renders_are_deterministic() {
    let recs = grid(vec![vec!["ab", "c"], vec!["d", "e"]]);
    let mut cfg = Config::new(CellConfig::plain());
    cfg.push_span(SpanDesc { row: 0, col: 0, rows: 1, cols: 2 });
    let mut colors = ColorMap::new();
    colors.push(Position { row: 1, col: 0 }, ColorPair { fg: 1, bg: 2 });
    let t = Table::new(recs, cfg, colors);
    let first = t.instructions();
    let second = t.instructions();
    assert_eq!(first, second);
}

#[test]
fn empty_grid_renders_bare_bracket() {
    let t = table(Records::new(Vec::new()));
    let instrs = t.instructions();
    assert_eq!(instrs, vec![Instr::Start, Instr::Finish]);
    let surface = Surface::new(3, 2);
    let out = t.render(Rect { x: 0, y: 0, width: 3, height: 2 }, surface).unwrap();
    assert_eq!(row_text(&out, 0), "   ");
    assert_eq!(row_text(&out, 1), "   ");
}

#[test]
fn single_color_emits_one_bracketed_pair() {
    let recs = grid(vec![vec!["a", "b"], vec!["c", "d"]]);
    let mut colors = ColorMap::new();
    let cp = ColorPair { fg: 3, bg: 6 };
    colors.push(Position { row: 0, col: 0 }, cp);
    let t = Table::new(recs, Config::new(CellConfig::plain()), colors);
    let instrs = t.instructions();
    let starts: Vec<usize> = instrs
        .iter()
        .enumerate()
        .filter(|(_, i)| matches!(i, Instr::ColorStart { .. }))
        .map(|(k, _)| k)
        .collect();
    let stops: Vec<usize> = instrs
        .iter()
        .enumerate()
        .filter(|(_, i)| matches!(i, Instr::ColorStop { .. }))
        .map(|(k, _)| k)
        .collect();
    assert_eq!(starts.len(), 1);
    assert_eq!(stops.len(), 1);
    // The pair brackets exactly the colored cell's single write.
    assert_eq!(stops[0], starts[0] + 2);
    assert!(matches!(instrs[starts[0] + 1], Instr::WriteStr { .. }));
    assert!(matches!(instrs[starts[0]], Instr::ColorStart { color } if color == cp));
}

#[test]
fn merged_row_rectangle_takes_full_width() {
    let recs = grid(vec![
        vec!["title", "", "", ""],
        vec!["aa", "bb", "", ""],
    ]);
    let mut cfg = Config::new(CellConfig::plain());
    cfg.push_span(SpanDesc { row: 0, col: 0, rows: 1, cols: 4 });
    cfg.push_span(SpanDesc { row: 1, col: 1, rows: 1, cols: 3 });
    let t = Table::new(recs, cfg, ColorMap::new());
    let dims = estimate(&t.records, &t.config);
    let total: usize = dims.widths.iter().sum();
    let instrs = t.instructions();
    // The first write is the fully merged row: its rectangle is the
    // whole table width.
    let first_write = instrs
        .iter()
        .find_map(|i| match i {
            Instr::WriteStr { width, .. } => Some(*width),
            _ => None,
        })
        .unwrap();
    assert_eq!(first_write, total);
    assert!(dims.widths[0] >= 2);
}

#[test]
fn rendered_characters_land_in_place() {
    let t = table(grid(vec![vec!["ab", "c"], vec!["d", "e"]]));
    let surface = Surface::new(5, 3);
    let out = t.render(Rect { x: 0, y: 0, width: 5, height: 3 }, surface).unwrap();
    assert_eq!(row_text(&out, 0), "abc  ");
    assert_eq!(row_text(&out, 1), "d e  ");
    assert_eq!(row_text(&out, 2), "     ");
}

#[test]
fn alignment_places_content() {
    let recs = grid(vec![vec!["wide!"], vec!["x"], vec!["y"]]);
    let mut cfg = Config::new(CellConfig::plain());
    let mut right = CellConfig::plain();
    right.halign = HAlign::Right;
    let mut center = CellConfig::plain();
    center.halign = HAlign::Center;
    cfg.push_override(Position { row: 1, col: 0 }, right);
    cfg.push_override(Position { row: 2, col: 0 }, center);
    let t = Table::new(recs, cfg, ColorMap::new());
    let surface = Surface::new(5, 3);
    let out = t.render(Rect { x: 0, y: 0, width: 5, height: 3 }, surface).unwrap();
    assert_eq!(row_text(&out, 0), "wide!");
    assert_eq!(row_text(&out, 1), "    x");
    assert_eq!(row_text(&out, 2), "  y  ");
}

#[test]
fn clipping_never_leaves_the_rectangle() {
    // A marked surface: every cell starts as '#'. The grid is far wider
    // and taller than the 2-by-1 target rectangle at (1, 1).
    let surface = Surface {
        width: 5,
        height: 4,
        cells: vec!['#'; 20],
    };
    let t = table(grid(vec![
        vec!["0123456789", "abcdef"],
        vec!["ghi", "jkl"],
        vec!["mno", "pqr"],
    ]));
    let rect = Rect { x: 1, y: 1, width: 2, height: 1 };
    let out = t.render(rect, surface).unwrap();
    for y in 0..4 {
        for x in 0..5 {
            let inside = y == 1 && (x == 1 || x == 2);
            if inside {
                assert_eq!(out.get(y, x), if x == 1 { '0' } else { '1' });
            } else {
                assert_eq!(out.get(y, x), '#');
            }
        }
    }
}

#[test]
fn adapter_cursor_and_clipping() {
    let surface = Surface::new(3, 2);
    let mut adapter = SurfaceAdapter::new(surface, Rect { x: 0, y: 0, width: 3, height: 2 });
    let text: Vec<char> = "abcd".chars().collect();
    adapter.put_str(&text, 4);
    // The cursor advances by the declared width even though the last
    // glyph was clipped at the rectangle's edge.
    assert_eq!(adapter.col, 4);
    adapter.next_row();
    assert_eq!(adapter.row, 1);
    assert_eq!(adapter.col, 0);
    adapter.put_char('z');
    assert_eq!(adapter.col, 1);
    let out = adapter.into_surface();
    assert_eq!(row_text(&out, 0), "abc");
    assert_eq!(row_text(&out, 1), "z  ");
}

#[test]
fn offset_rectangle_translates_coordinates() {
    let t = table(grid(vec![vec!["ab"]]));
    let surface = Surface::new(5, 3);
    let out = t.render(Rect { x: 2, y: 1, width: 3, height: 2 }, surface).unwrap();
    assert_eq!(row_text(&out, 0), "     ");
    assert_eq!(row_text(&out, 1), "  ab ");
    assert_eq!(row_text(&out, 2), "     ");
}

#[test]
fn app_holds_the_widget() {
    let t = table(grid(vec![vec!["hi"]]));
    let app = App::new(t);
    let instrs = app.table.instructions();
    assert_eq!(count_writes(&instrs), 1);
}

#[test]
fn cursor_advances_past_the_edges() {
    let surface = Surface::new(3, 2);
    let mut adapter = SurfaceAdapter::new(surface, Rect { x: 0, y: 0, width: 3, height: 2 });
    // Row-breaks keep advancing the row cursor past the bottom edge.
    adapter.next_row();
    adapter.next_row();
    adapter.next_row();
    assert_eq!(adapter.row, 3);
    // A write below the rectangle is clipped, but the column cursor
    // still advances by the declared width.
    let text: Vec<char> = "xy".chars().collect();
    adapter.put_str(&text, 2);
    assert_eq!(adapter.col, 2);
    let one: Vec<char> = vec!['q'];
    adapter.put_str(&one, 1);
    assert_eq!(adapter.col, 3);
    let out = adapter.into_surface();
    assert_eq!(out.get(0, 0), ' ');
    assert_eq!(out.get(1, 0), ' ');
}

#[test]
fn color_pair_count_matches_region_lines() {
    // The colored top-left cell is merged over two rows, so its
    // rectangle spans two physical lines and each line carries its own
    // colorize bracket.
    let recs = grid(vec![vec!["a", "b"], vec!["c", "d"]]);
    let mut cfg = Config::new(CellConfig::plain());
    cfg.push_span(SpanDesc { row: 0, col: 0, rows: 2, cols: 1 });
    let mut colors = ColorMap::new();
    colors.push(Position { row: 0, col: 0 }, ColorPair { fg: 1, bg: 1 });
    let t = Table::new(recs, cfg, colors);
    let instrs = t.instructions();
    let starts = instrs
        .iter()
        .filter(|i| matches!(i, Instr::ColorStart { .. }))
        .count();
    let stops = instrs
        .iter()
        .filter(|i| matches!(i, Instr::ColorStop { .. }))
        .count();
    assert_eq!(starts, 2);
    assert_eq!(stops, 2);
}
