use vt_grid::{Attrs, Color, Grid, Pos, Size};

fn grid(rows: u16, cols: u16) -> Grid {
    Grid::new(Size { rows, cols })
}

fn put(g: &mut Grid, row: u16, col: u16, ch: u8) {
    g.cell_mut(Pos { row, col }).expect("cell in range").set(ch, Attrs::new());
}

#[test]
fn contents_trims_trailing_whitespace() {
    let mut g = grid(2, 2);
    put(&mut g, 0, 0, b'a');
    put(&mut g, 1, 1, b'd');
    assert_eq!(g.contents(), "a \n d");
}

#[test]
fn contents_joins_wrapped_rows_without_newline() {
    let mut g = grid(2, 3);
    put(&mut g, 0, 0, b'a');
    put(&mut g, 0, 1, b'b');
    g.col_set(2);
    g.col_inc(1);
    g.col_wrap(1);
    put(&mut g, 1, 0, b'c');
    assert_eq!(g.contents(), "ab c");
}

#[test]
fn contents_of_blank_grid_is_empty() {
    let g = grid(24, 80);
    assert_eq!(g.contents(), "");
}

#[test]
fn contents_formatted_blank_grid_is_clear_only() {
    let g = grid(2, 2);
    assert_eq!(g.contents_formatted(), b"\x1b[H\x1b[J".to_vec());
}

#[test]
fn contents_formatted_appends_cursor_position_when_needed() {
    let mut g = grid(1, 2);
    put(&mut g, 0, 0, b'A');
    // The stream writes "A", which leaves the cursor at row 0 column 1; the
    // grid's cursor is still at the origin, so an absolute position escape
    // follows.
    assert_eq!(g.contents_formatted(), b"\x1b[H\x1b[JA\x1b[1;1H".to_vec());
}

#[test]
fn contents_formatted_carries_attributes() {
    let mut g = grid(1, 2);
    let attrs = Attrs {
        fgcolor: Color::Idx(1),
        bgcolor: Color::Default,
        bold: true,
        italic: false,
        underline: false,
        inverse: false,
    };
    g.cell_mut(Pos { row: 0, col: 0 }).unwrap().set(b'A', attrs);
    g.cell_mut(Pos { row: 0, col: 1 }).unwrap().set(b'B', attrs);
    g.set_pos(Pos { row: 0, col: 1 });
    // One attribute escape covers both cells; the final column (2) differs
    // from the cursor column (1), so a position escape follows.
    assert_eq!(
        g.contents_formatted(),
        b"\x1b[H\x1b[J\x1b[0;38;5;1;1mAB\x1b[1;2H".to_vec()
    );
}

#[test]
fn diff_of_identical_grids_is_reset_only() {
    let g = grid(24, 80);
    assert_eq!(g.contents_diff(&g), b"\x1b[m".to_vec());
    let mut h = grid(4, 4);
    put(&mut h, 2, 2, b'x');
    h.set_pos(Pos { row: 1, col: 3 });
    assert_eq!(h.contents_diff(&h), b"\x1b[m".to_vec());
}

#[test]
fn diff_repositions_only_changed_rows() {
    let a = grid(1, 3);
    let mut b = a.clone();
    put(&mut b, 0, 1, b'Z');
    assert_eq!(
        b.contents_diff(&a),
        b"\x1b[m\x1b[1;1H\x1b[0m\x1b[2K Z\x1b[1;1H".to_vec()
    );
}

#[test]
fn diff_skips_unchanged_rows() {
    let mut a = grid(3, 2);
    put(&mut a, 0, 0, b'a');
    let mut b = a.clone();
    put(&mut b, 2, 0, b'c');
    b.set_pos(Pos { row: 2, col: 1 });
    // Only row 3 (1-indexed) is repositioned and redrawn, and the implied
    // final position (row 2, column 1) matches the cursor, so no trailing
    // escape is emitted.
    assert_eq!(
        b.contents_diff(&a),
        b"\x1b[m\x1b[3;1H\x1b[0m\x1b[2Kc".to_vec()
    );
}

#[test]
fn formatted_strips_trailing_blank_rows() {
    let mut g = grid(3, 2);
    put(&mut g, 0, 0, b'a');
    // Rows 1 and 2 are blank: their separators are stripped, the implied
    // final position is (1, 1), and the cursor at the origin forces an
    // escape.
    assert_eq!(g.contents_formatted(), b"\x1b[H\x1b[Ja\x1b[1;1H".to_vec());
}
