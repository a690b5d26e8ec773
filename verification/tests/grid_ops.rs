use vt_grid::{Attrs, Grid, Pos, Size};

fn grid(rows: u16, cols: u16) -> Grid {
    Grid::new(Size { rows, cols })
}

fn put(g: &mut Grid, row: u16, col: u16, ch: u8) {
    g.cell_mut(Pos { row, col }).expect("cell in range").set(ch, Attrs::new());
}

fn ch_at(g: &Grid, row: u16, col: u16) -> u8 {
    g.cell(Pos { row, col }).expect("cell in range").ch
}

#[test]
fn new_grid_is_blank() {
    let g = grid(3, 4);
    assert_eq!(g.size(), Size { rows: 3, cols: 4 });
    assert_eq!(g.pos(), Pos { row: 0, col: 0 });
    for r in 0..3 {
        for c in 0..4 {
            assert_eq!(ch_at(&g, r, c), b' ');
        }
    }
    assert!(g.cell(Pos { row: 3, col: 0 }).is_none());
    assert!(g.cell(Pos { row: 0, col: 4 }).is_none());
    assert_eq!(g.contents(), "");
}

#[test]
fn set_pos_clamps_to_grid() {
    let mut g = grid(10, 10);
    g.set_pos(Pos { row: 50, col: 50 });
    assert_eq!(g.pos(), Pos { row: 9, col: 9 });
    g.set_pos(Pos { row: 3, col: 4 });
    assert_eq!(g.pos(), Pos { row: 3, col: 4 });
}

#[test]
fn set_pos_origin_mode_offsets_and_clamps() {
    let mut g = grid(24, 80);
    g.set_scroll_region(5, 20);
    assert_eq!(g.pos(), Pos { row: 5, col: 0 });
    g.set_origin_mode(true);
    assert_eq!(g.pos(), Pos { row: 5, col: 0 });
    g.set_pos(Pos { row: 2, col: 3 });
    assert_eq!(g.pos(), Pos { row: 7, col: 3 });
    g.set_pos(Pos { row: 100, col: 3 });
    assert_eq!(g.pos(), Pos { row: 20, col: 3 });
    g.set_origin_mode(false);
    assert_eq!(g.pos(), Pos { row: 0, col: 0 });
}

#[test]
fn save_and_restore_cursor_single_slot() {
    let mut g = grid(10, 10);
    g.set_pos(Pos { row: 2, col: 3 });
    g.save_cursor();
    g.set_pos(Pos { row: 8, col: 1 });
    g.save_cursor();
    g.set_pos(Pos { row: 0, col: 0 });
    g.restore_cursor();
    assert_eq!(g.pos(), Pos { row: 8, col: 1 });
}

#[test]
fn tab_stops_advance_to_next_multiple_of_eight() {
    let mut g = grid(24, 80);
    g.col_set(5);
    g.col_tab();
    assert_eq!(g.pos().col, 8);
    g.col_tab();
    assert_eq!(g.pos().col, 16);
    g.col_set(79);
    g.col_tab();
    assert_eq!(g.pos().col, 79);
}

#[test]
fn row_inc_scroll_scrolls_on_overflow() {
    let mut g = grid(24, 80);
    put(&mut g, 7, 0, b'x');
    put(&mut g, 23, 0, b'b');
    g.row_inc_scroll(30);
    assert_eq!(g.pos().row, 23);
    assert_eq!(ch_at(&g, 0, 0), b'x');
    assert_eq!(ch_at(&g, 16, 0), b'b');
    for r in 17..24 {
        assert_eq!(ch_at(&g, r, 0), b' ');
    }
}

#[test]
fn row_dec_scroll_sums_both_overshoots() {
    // With scroll_top 5 and the cursor on row 6, moving up 10 scrolls down
    // by both overshoots summed: 10 - 6 = 4 absorbed by the saturating
    // subtraction, plus 5 - 0 = 5 absorbed by the top clamp — 9 lines.
    let mut g = grid(24, 80);
    g.set_scroll_region(5, 23);
    put(&mut g, 6, 0, b'y');
    g.row_set(6);
    assert_eq!(g.pos().row, 6);
    g.row_dec_scroll(10);
    assert_eq!(g.pos().row, 5);
    assert_eq!(ch_at(&g, 15, 0), b'y');
    for r in 5..15 {
        assert_eq!(ch_at(&g, r, 0), b' ');
    }
}

#[test]
fn insert_cells_truncates_at_right_edge() {
    let mut g = grid(1, 8);
    for (i, ch) in (b'a'..=b'h').enumerate() {
        put(&mut g, 0, i as u16, ch);
    }
    g.col_set(2);
    g.insert_cells(3);
    let want: Vec<u8> = b"ab   cde".to_vec();
    for (i, ch) in want.iter().enumerate() {
        assert_eq!(ch_at(&g, 0, i as u16), *ch);
    }
}

#[test]
fn delete_cells_pads_with_blanks() {
    let mut g = grid(1, 8);
    for (i, ch) in (b'a'..=b'h').enumerate() {
        put(&mut g, 0, i as u16, ch);
    }
    g.col_set(2);
    g.delete_cells(3);
    let want: Vec<u8> = b"abfgh   ".to_vec();
    for (i, ch) in want.iter().enumerate() {
        assert_eq!(ch_at(&g, 0, i as u16), *ch);
    }
}

#[test]
fn delete_cells_count_is_clamped() {
    let mut g = grid(1, 4);
    for (i, ch) in (b'a'..=b'd').enumerate() {
        put(&mut g, 0, i as u16, ch);
    }
    g.col_set(1);
    g.delete_cells(100);
    assert_eq!(ch_at(&g, 0, 0), b'a');
    for c in 1..4 {
        assert_eq!(ch_at(&g, 0, c), b' ');
    }
}

#[test]
fn erase_cells_clears_in_place() {
    let mut g = grid(1, 6);
    for (i, ch) in (b'a'..=b'f').enumerate() {
        put(&mut g, 0, i as u16, ch);
    }
    g.col_set(2);
    g.erase_cells(2, vt_grid::Color::Default);
    let want: Vec<u8> = b"ab  ef".to_vec();
    for (i, ch) in want.iter().enumerate() {
        assert_eq!(ch_at(&g, 0, i as u16), *ch);
    }
}

#[test]
fn erase_row_variants() {
    let mut g = grid(2, 4);
    for c in 0..4 {
        put(&mut g, 0, c, b'x');
        put(&mut g, 1, c, b'y');
    }
    g.set_pos(Pos { row: 0, col: 2 });
    g.erase_row_forward(vt_grid::Color::Default);
    assert_eq!(ch_at(&g, 0, 0), b'x');
    assert_eq!(ch_at(&g, 0, 1), b'x');
    assert_eq!(ch_at(&g, 0, 2), b' ');
    assert_eq!(ch_at(&g, 0, 3), b' ');
    g.set_pos(Pos { row: 1, col: 1 });
    g.erase_row_backward(vt_grid::Color::Default);
    assert_eq!(ch_at(&g, 1, 0), b' ');
    assert_eq!(ch_at(&g, 1, 1), b' ');
    assert_eq!(ch_at(&g, 1, 2), b'y');
    assert_eq!(ch_at(&g, 1, 3), b'y');
}

#[test]
fn erase_all_forward_and_backward() {
    let mut g = grid(3, 2);
    for r in 0..3 {
        for c in 0..2 {
            put(&mut g, r, c, b'z');
        }
    }
    g.set_pos(Pos { row: 1, col: 0 });
    g.erase_all_forward(vt_grid::Color::Default);
    assert_eq!(ch_at(&g, 0, 0), b'z');
    assert_eq!(ch_at(&g, 1, 0), b' ');
    assert_eq!(ch_at(&g, 2, 0), b' ');
    assert_eq!(ch_at(&g, 2, 1), b' ');

    let mut h = grid(3, 2);
    for r in 0..3 {
        for c in 0..2 {
            put(&mut h, r, c, b'w');
        }
    }
    h.set_pos(Pos { row: 1, col: 0 });
    h.erase_all_backward(vt_grid::Color::Default);
    assert_eq!(ch_at(&h, 0, 0), b' ');
    assert_eq!(ch_at(&h, 1, 0), b' ');
    assert_eq!(ch_at(&h, 1, 1), b'w');
    assert_eq!(ch_at(&h, 2, 0), b'w');
}

#[test]
fn insert_and_delete_lines() {
    let mut g = grid(4, 2);
    for r in 0..4 {
        put(&mut g, r, 0, b'0' + r as u8);
    }
    g.set_pos(Pos { row: 1, col: 0 });
    g.insert_lines(1);
    assert_eq!(ch_at(&g, 0, 0), b'0');
    assert_eq!(ch_at(&g, 1, 0), b' ');
    assert_eq!(ch_at(&g, 2, 0), b'1');
    assert_eq!(ch_at(&g, 3, 0), b'2');
    g.delete_lines(1);
    assert_eq!(ch_at(&g, 0, 0), b'0');
    assert_eq!(ch_at(&g, 1, 0), b'1');
    assert_eq!(ch_at(&g, 2, 0), b'2');
    assert_eq!(ch_at(&g, 3, 0), b' ');
}

#[test]
fn scroll_up_and_down_move_region_content() {
    let mut g = grid(4, 2);
    for r in 0..4 {
        put(&mut g, r, 0, b'0' + r as u8);
    }
    g.scroll_up(1);
    assert_eq!(ch_at(&g, 0, 0), b'1');
    assert_eq!(ch_at(&g, 2, 0), b'3');
    assert_eq!(ch_at(&g, 3, 0), b' ');
    g.scroll_down(1);
    assert_eq!(ch_at(&g, 0, 0), b' ');
    assert_eq!(ch_at(&g, 1, 0), b'1');
    assert_eq!(ch_at(&g, 3, 0), b'3');
}

#[test]
fn set_scroll_region_clamps_and_homes_cursor() {
    let mut g = grid(24, 80);
    g.set_scroll_region(5, 100);
    assert_eq!(g.pos(), Pos { row: 5, col: 0 });
    g.set_pos(Pos { row: 0, col: 0 });
    g.set_scroll_region(9, 3);
    assert_eq!(g.pos(), Pos { row: 0, col: 0 });
}

#[test]
fn col_wrap_marks_row_and_advances() {
    let mut g = grid(2, 4);
    put(&mut g, 0, 3, b'a');
    g.col_set(3);
    g.col_inc(1);
    assert_eq!(g.pos().col, 4);
    g.col_wrap(1);
    assert_eq!(g.pos(), Pos { row: 1, col: 0 });
    assert!(g.row(Pos { row: 0, col: 0 }).unwrap().wrapped());
}

#[test]
fn col_wrap_without_overflow_is_a_no_op() {
    let mut g = grid(2, 4);
    g.col_set(2);
    g.col_wrap(1);
    assert_eq!(g.pos(), Pos { row: 0, col: 2 });
    assert!(!g.row(Pos { row: 0, col: 0 }).unwrap().wrapped());
}

#[test]
fn set_size_with_new_width_clears_wrap_flags() {
    let mut g = grid(2, 4);
    g.col_set(3);
    g.col_inc(1);
    g.col_wrap(1);
    assert!(g.row(Pos { row: 0, col: 0 }).unwrap().wrapped());
    g.set_size(Size { rows: 2, cols: 5 });
    assert!(!g.row(Pos { row: 0, col: 0 }).unwrap().wrapped());
    assert!(!g.row(Pos { row: 1, col: 0 }).unwrap().wrapped());
    assert_eq!(g.row(Pos { row: 0, col: 0 }).unwrap().cells.len(), 5);
}

#[test]
fn set_size_with_same_width_keeps_wrap_flags() {
    let mut g = grid(3, 4);
    g.col_set(3);
    g.col_inc(1);
    g.col_wrap(1);
    assert!(g.row(Pos { row: 0, col: 0 }).unwrap().wrapped());
    g.set_size(Size { rows: 2, cols: 4 });
    assert!(g.row(Pos { row: 0, col: 0 }).unwrap().wrapped());
}

#[test]
fn set_size_preserves_content_and_clamps_cursor() {
    let mut g = grid(4, 4);
    put(&mut g, 1, 1, b'k');
    g.set_pos(Pos { row: 3, col: 3 });
    g.set_size(Size { rows: 2, cols: 2 });
    assert_eq!(g.size(), Size { rows: 2, cols: 2 });
    assert_eq!(g.pos(), Pos { row: 1, col: 1 });
    assert_eq!(ch_at(&g, 1, 1), b'k');
    g.set_size(Size { rows: 3, cols: 3 });
    assert_eq!(ch_at(&g, 1, 1), b'k');
    assert_eq!(ch_at(&g, 2, 2), b' ');
}

#[test]
fn clear_resets_everything() {
    let mut g = grid(3, 3);
    put(&mut g, 1, 1, b'q');
    g.set_scroll_region(1, 2);
    g.set_origin_mode(true);
    g.save_cursor();
    g.clear();
    assert_eq!(g.pos(), Pos { row: 0, col: 0 });
    assert_eq!(ch_at(&g, 1, 1), b' ');
    assert_eq!(g.contents(), "");
    g.set_pos(Pos { row: 2, col: 0 });
    assert_eq!(g.pos().row, 2);
}

fn check_invariants(g: &Grid) {
    let size = g.size();
    assert_eq!(g.rows().len(), size.rows as usize);
    for row in g.rows() {
        assert_eq!(row.cells.len(), size.cols as usize);
    }
    assert!(g.pos().row < size.rows);
    assert!(g.pos().col < size.cols);
    assert!(g.scroll_top <= g.scroll_bottom);
    assert!(g.scroll_bottom < size.rows);
}

#[test]
fn invariants_hold_through_an_operation_sequence() {
    let mut g = grid(24, 80);
    check_invariants(&g);
    g.set_pos(Pos { row: 100, col: 200 });
    check_invariants(&g);
    g.set_scroll_region(3, 17);
    check_invariants(&g);
    g.insert_lines(5);
    check_invariants(&g);
    g.delete_lines(400);
    check_invariants(&g);
    g.scroll_up(30);
    check_invariants(&g);
    g.scroll_down(2);
    check_invariants(&g);
    g.row_inc_scroll(60000);
    check_invariants(&g);
    g.row_dec_scroll(60000);
    check_invariants(&g);
    g.col_tab();
    check_invariants(&g);
    g.set_size(Size { rows: 5, cols: 7 });
    check_invariants(&g);
    g.set_origin_mode(true);
    check_invariants(&g);
    g.erase_all_forward(vt_grid::Color::Default);
    check_invariants(&g);
    g.clear();
    check_invariants(&g);
}

#[test]
fn restore_cursor_restores_origin_mode() {
    let mut g = grid(24, 80);
    g.set_scroll_region(4, 12);
    g.set_origin_mode(true);
    g.set_pos(Pos { row: 2, col: 6 });
    g.save_cursor();
    g.set_origin_mode(false);
    g.set_pos(Pos { row: 0, col: 0 });
    g.restore_cursor();
    assert_eq!(g.pos(), Pos { row: 6, col: 6 });
    // Origin mode came back with the cursor: absolute addressing is again
    // region-relative.
    g.set_pos(Pos { row: 0, col: 0 });
    assert_eq!(g.pos(), Pos { row: 4, col: 0 });
}

#[test]
fn erase_row_clears_whole_row() {
    let mut g = grid(2, 3);
    for c in 0..3 {
        put(&mut g, 0, c, b'x');
    }
    g.erase_row(vt_grid::Color::Default);
    for c in 0..3 {
        assert_eq!(ch_at(&g, 0, c), b' ');
    }
}

#[test]
fn rows_mut_gives_exclusive_access() {
    let mut g = grid(2, 2);
    g.rows_mut()[0].wrap(true);
    assert!(g.row(Pos { row: 0, col: 0 }).unwrap().wrapped());
}

#[test]
fn row_and_cell_mut_write_through() {
    let mut g = grid(3, 3);
    g.row_mut(Pos { row: 1, col: 0 }).unwrap().cells[2].set(b'm', Attrs::new());
    assert_eq!(ch_at(&g, 1, 2), b'm');
    g.set_pos(Pos { row: 2, col: 2 });
    g.current_cell_mut().set(b'n', Attrs::new());
    assert_eq!(ch_at(&g, 2, 2), b'n');
    g.current_row_mut().wrap(true);
    assert!(g.row(Pos { row: 2, col: 0 }).unwrap().wrapped());
}

#[test]
fn row_and_col_clamped_movement() {
    let mut g = grid(10, 10);
    g.set_scroll_region(2, 7);
    assert_eq!(g.pos(), Pos { row: 2, col: 0 });
    g.row_inc_clamp(100);
    assert_eq!(g.pos().row, 7);
    g.row_dec_clamp(100);
    assert_eq!(g.pos().row, 2);
    g.col_inc_clamp(100);
    assert_eq!(g.pos().col, 9);
    g.col_dec(4);
    assert_eq!(g.pos().col, 5);
    g.row_set(100);
    assert_eq!(g.pos().row, 7);
    g.row_set(0);
    assert_eq!(g.pos().row, 2);
}
