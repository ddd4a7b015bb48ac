use table_render::{Position, Table};
use table_render::dimension::estimate;
use table_render::grid::{
    Cell, CellConfig, ColorMap, ColorPair, Config, HAlign, Records, SpanDesc, VAlign,
};

fn cell(s: &str) -> Cell {
    Cell::new(vec![s.chars().collect()])
}

fn grid(rows: Vec<Vec<&str>>) -> Records {
    let mut out: Vec<Vec<Cell>> = Vec::new();
    for r in rows {
        let mut row: Vec<Cell> = Vec::new();
        for s in r {
            row.push(cell(s));
        }
        out.push(row);
    }
    Records::new(out)
}

#[test]
fn natural_widths_no_spans() {
    let recs = grid(vec![vec!["abc", "x"], vec!["d", "wide!"]]);
    let cfg = Config::new(CellConfig::plain());
    let dims = estimate(&recs, &cfg);
    assert_eq!(dims.widths, vec![3, 5]);
    assert_eq!(dims.heights, vec![1, 1]);
}

#[test]
fn natural_widths_with_padding() {
    let recs = grid(vec![vec!["abc", "x"], vec!["d", "yy"]]);
    let mut cfg = Config::new(CellConfig::plain());
    let mut padded = CellConfig::plain();
    padded.pad_left = 2;
    padded.pad_right = 1;
    padded.pad_top = 1;
    padded.pad_bottom = 1;
    cfg.push_override(Position { row: 0, col: 0 }, padded);
    let dims = estimate(&recs, &cfg);
    // column 0: max(3 + 2 + 1, 1) = 6; column 1: max(1, 2) = 2
    assert_eq!(dims.widths, vec![6, 2]);
    // row 0: max(1 + 1 + 1, 1) = 3; row 1: 1
    assert_eq!(dims.heights, vec![3, 1]);
}

#[test]
fn override_last_write_wins() {
    let mut cfg = Config::new(CellConfig::plain());
    let mut first = CellConfig::plain();
    first.pad_left = 9;
    let mut second = CellConfig::plain();
    second.pad_left = 2;
    second.halign = HAlign::Right;
    cfg.push_override(Position { row: 0, col: 0 }, first);
    cfg.push_override(Position { row: 0, col: 0 }, second);
    let got = cfg.resolve(Position { row: 0, col: 0 });
    assert_eq!(got.pad_left, 2);
    assert!(matches!(got.halign, HAlign::Right));
    assert!(matches!(got.valign, VAlign::Top));
    let other = cfg.resolve(Position { row: 1, col: 1 });
    assert_eq!(other.pad_left, 0);
}

#[test]
fn span_widens_covered_columns() {
    // The spanned cell needs 11 columns; its two covered columns start
    // at 1 + 3 = 4, so the narrower one (column 0) takes the shortfall.
    let recs = grid(vec![vec!["hello world", ""], vec!["a", "bcd"]]);
    let mut cfg = Config::new(CellConfig::plain());
    cfg.push_span(SpanDesc { row: 0, col: 0, rows: 1, cols: 2 });
    let dims = estimate(&recs, &cfg);
    assert_eq!(dims.widths.iter().sum::<usize>() >= 11, true);
    assert_eq!(dims.widths, vec![8, 3]);
}

#[test]
fn span_total_at_least_requirement() {
    let recs = grid(vec![
        vec!["0123456789", "", "x"],
        vec!["a", "b", "c"],
    ]);
    let mut cfg = Config::new(CellConfig::plain());
    cfg.push_span(SpanDesc { row: 0, col: 0, rows: 1, cols: 2 });
    let dims = estimate(&recs, &cfg);
    assert!(dims.widths[0] + dims.widths[1] >= 10);
    assert_eq!(dims.widths[2], 1);
}

#[test]
fn row_span_total_at_least_requirement() {
    let tall = Cell::new(vec![
        "one".chars().collect(),
        "two".chars().collect(),
        "three".chars().collect(),
    ]);
    let rows = vec![
        vec![tall, cell("x")],
        vec![cell("y"), cell("z")],
    ];
    let recs = Records::new(rows);
    let mut cfg = Config::new(CellConfig::plain());
    cfg.push_span(SpanDesc { row: 0, col: 0, rows: 2, cols: 1 });
    let dims = estimate(&recs, &cfg);
    assert!(dims.heights[0] + dims.heights[1] >= 3);
    assert_eq!(dims.widths[0], 5);
}

#[test]
fn merged_row_and_inner_span() {
    // Two logical rows of four columns: row 0 fully merged into one
    // span, row 1 with a three-column merge starting at column 1.
    let recs = grid(vec![
        vec!["title", "", "", ""],
        vec!["aa", "bb", "", ""],
    ]);
    let mut cfg = Config::new(CellConfig::plain());
    cfg.push_span(SpanDesc { row: 0, col: 0, rows: 1, cols: 4 });
    cfg.push_span(SpanDesc { row: 1, col: 1, rows: 1, cols: 3 });
    let dims = estimate(&recs, &cfg);
    // Column 0 keeps the widest single-column content among the
    // non-spanned cells anchored in it.
    assert!(dims.widths[0] >= 2);
    // The fully merged row is owed the whole table width.
    let total: usize = dims.widths.iter().sum();
    assert!(total >= 5);
    assert_eq!(dims.heights, vec![1, 1]);
}

#[test]
fn color_map_lookup() {
    let mut colors = ColorMap::new();
    colors.push(Position { row: 0, col: 0 }, ColorPair { fg: 2, bg: 4 });
    colors.push(Position { row: 1, col: 2 }, ColorPair { fg: 7, bg: 0 });
    assert_eq!(
        colors.color_at(Position { row: 0, col: 0 }),
        Some(ColorPair { fg: 2, bg: 4 })
    );
    assert_eq!(
        colors.color_at(Position { row: 1, col: 2 }),
        Some(ColorPair { fg: 7, bg: 0 })
    );
    assert_eq!(colors.color_at(Position { row: 5, col: 5 }), None);
}

#[test]
fn empty_grid_empty_dimensions() {
    let recs = Records::new(Vec::new());
    let cfg = Config::new(CellConfig::plain());
    let dims = estimate(&recs, &cfg);
    assert!(dims.widths.is_empty());
    assert!(dims.heights.is_empty());
}

#[test]
fn wf_checker_accepts_and_refuses() {
    let recs = grid(vec![vec!["a", "b"], vec!["c", "d"]]);
    let mut cfg = Config::new(CellConfig::plain());
    cfg.push_span(SpanDesc { row: 0, col: 0, rows: 1, cols: 2 });
    let good = Table::new(recs, cfg, ColorMap::new());
    assert!(good.check_wf());
    assert!(table_render::dimension::layout_within_limits(
        &good.records,
        &good.config
    ));

    // Overlapping spans are refused.
    let recs2 = grid(vec![vec!["a", "b"], vec!["c", "d"]]);
    let mut cfg2 = Config::new(CellConfig::plain());
    cfg2.push_span(SpanDesc { row: 0, col: 0, rows: 1, cols: 2 });
    cfg2.push_span(SpanDesc { row: 0, col: 1, rows: 2, cols: 1 });
    let bad = Table::new(recs2, cfg2, ColorMap::new());
    assert!(!bad.check_wf());

    // Ragged rows are refused.
    let ragged = Records::new(vec![vec![cell("a"), cell("b")], vec![cell("c")]]);
    let bad2 = Table::new(ragged, Config::new(CellConfig::plain()), ColorMap::new());
    assert!(!bad2.check_wf());

    // An out-of-bounds span is refused.
    let recs3 = grid(vec![vec!["a", "b"]]);
    let mut cfg3 = Config::new(CellConfig::plain());
    cfg3.push_span(SpanDesc { row: 0, col: 1, rows: 1, cols: 2 });
    let bad3 = Table::new(recs3, cfg3, ColorMap::new());
    assert!(!bad3.check_wf());
}
