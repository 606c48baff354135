use safa_core::terminal::{
    rgb, Cell, ExtraAttributes, Grid, Row, TermDisplay, TermRequest, BOLD_WEIGHT, BRIGHT_WHITE, NONE, NORMAL_WEIGHT,
    RED, WHITE_COLOR,
};

fn cell(d: &TermDisplay, x: usize, y: usize) -> Cell {
    d.grid.rows[y].cells[x]
}

fn write(d: &mut TermDisplay, s: &str) {
    for c in s.chars() {
        d.insert_char(c);
    }
}

fn row_text(d: &TermDisplay, y: usize) -> String {
    d.grid.rows[y].cells.iter().map(|c| c.c).collect()
}

#[test]
fn new_display_is_blank() {
    let d = TermDisplay::new(4, 3);
    assert_eq!(d.cursor(), (0, 0));
    assert_eq!(d.grid.rows.len(), 3);
    for y in 0..3 {
        assert_eq!(row_text(&d, y), "    ");
        assert!(d.grid.rows[y].empty);
        assert!(!d.grid.rows[y].dirty);
    }
    assert_eq!(cell(&d, 0, 0), Cell::blank());
    assert_eq!(d.viewport_lines, 3);
    assert_eq!(d.cursor.curr_fg, WHITE_COLOR);
}

#[test]
fn printing_fills_cells_and_wraps() {
    let mut d = TermDisplay::new(3, 3);
    write(&mut d, "ab");
    assert_eq!(d.cursor(), (2, 0));
    assert_eq!(cell(&d, 0, 0).c, 'a');
    assert_eq!(cell(&d, 0, 0).fg, WHITE_COLOR);
    assert_eq!(cell(&d, 0, 0).attr, 0);
    assert!(d.grid.rows[0].dirty);
    assert!(!d.grid.rows[0].empty);
    write(&mut d, "c");
    assert_eq!(d.cursor(), (0, 1));
    assert_eq!(row_text(&d, 0), "abc");
}

#[test]
fn a_space_is_not_drawn() {
    let mut d = TermDisplay::new(3, 1);
    d.insert_char(' ');
    assert_eq!(cell(&d, 0, 0).attr, 1);
    assert!(cell(&d, 0, 0).should_skip());
}

#[test]
fn newline_on_last_row_scrolls() {
    let mut d = TermDisplay::new(2, 2);
    write(&mut d, "a\nb\n");
    assert_eq!(d.cursor(), (0, 1));
    assert_eq!(row_text(&d, 0), "b ");
    assert_eq!(row_text(&d, 1), "  ");
    assert_eq!(d.damage_min, Some(0));
    assert_eq!(d.damage_max, Some(2));
}

#[test]
fn backspace_moves_back() {
    let mut d = TermDisplay::new(3, 2);
    d.insert_char('\x08');
    assert_eq!(d.cursor(), (0, 0));
    write(&mut d, "x\x08");
    assert_eq!(d.cursor(), (0, 0));
    assert_eq!(cell(&d, 0, 0).c, 'x');
    d.insert_char('\n');
    d.insert_char('\x08');
    assert_eq!(d.cursor(), (2, 0));
}

#[test]
fn cursor_position_and_moves() {
    let mut d = TermDisplay::new(10, 5);
    d.csi_dispatch(&vec![vec![3], vec![4]], 'H');
    assert_eq!(d.cursor(), (3, 2));
    d.csi_dispatch(&vec![], 'A');
    assert_eq!(d.cursor(), (3, 1));
    d.csi_dispatch(&vec![vec![2]], 'B');
    assert_eq!(d.cursor(), (3, 3));
    d.csi_dispatch(&vec![vec![20]], 'C');
    assert_eq!(d.cursor(), (9, 3));
    d.csi_dispatch(&vec![vec![4]], 'D');
    assert_eq!(d.cursor(), (5, 3));
    d.csi_dispatch(&vec![vec![100]], 'B');
    assert_eq!(d.cursor(), (5, 4));
    d.csi_dispatch(&vec![vec![0], vec![0]], 'H');
    assert_eq!(d.cursor(), (0, 0));
    d.csi_dispatch(&vec![vec![7]], 'q');
    assert_eq!(d.cursor(), (0, 0));
}

#[test]
fn erase_modes() {
    let mut d = TermDisplay::new(3, 3);
    write(&mut d, "abcdefgh");
    assert_eq!(d.cursor(), (2, 2));
    d.csi_dispatch(&vec![vec![1], vec![2]], 'H');
    assert_eq!(d.cursor(), (1, 0));
    d.csi_dispatch(&vec![vec![0]], 'J');
    assert_eq!(row_text(&d, 0), "a  ");
    assert_eq!(row_text(&d, 1), "   ");
    assert_eq!(row_text(&d, 2), "   ");
    assert!(d.grid.rows[1].empty);
    assert!(!d.grid.rows[0].empty);

    let mut d = TermDisplay::new(3, 3);
    write(&mut d, "abcdefgh");
    d.csi_dispatch(&vec![vec![2], vec![1]], 'H');
    d.csi_dispatch(&vec![vec![1]], 'J');
    assert_eq!(row_text(&d, 0), "   ");
    assert_eq!(row_text(&d, 1), "   ");
    assert_eq!(row_text(&d, 2), "gh ");

    let mut d = TermDisplay::new(3, 3);
    write(&mut d, "abcdefgh");
    d.csi_dispatch(&vec![vec![2]], 'J');
    assert_eq!(d.cursor(), (2, 2));
    for y in 0..3 {
        assert_eq!(row_text(&d, y), "   ");
    }
    write(&mut d, "z");
    d.csi_dispatch(&vec![vec![3]], 'J');
    assert_eq!(d.cursor(), (0, 0));
    assert_eq!(row_text(&d, 2), "   ");

    let mut d = TermDisplay::new(3, 3);
    write(&mut d, "ab");
    d.csi_dispatch(&vec![vec![9]], 'J');
    assert_eq!(row_text(&d, 0), "ab ");
}

#[test]
fn graphic_rendition() {
    let mut d = TermDisplay::new(5, 2);
    d.csi_dispatch(&vec![vec![31], vec![1]], 'm');
    assert_eq!(d.cursor.curr_fg, RED);
    assert_eq!(d.cursor.curr_weight, BOLD_WEIGHT);
    d.csi_dispatch(&vec![vec![97], vec![22]], 'm');
    assert_eq!(d.cursor.curr_fg, BRIGHT_WHITE);
    assert_eq!(d.cursor.curr_weight, NORMAL_WEIGHT);
    d.csi_dispatch(&vec![vec![48], vec![2], vec![1], vec![2], vec![3]], 'm');
    assert_eq!(d.cursor.curr_bg, 0x0102_03ff);
    assert_eq!(rgb(1, 2, 3), 0x0102_03ff);
    d.csi_dispatch(&vec![vec![38], vec![2], vec![0x1ff], vec![0], vec![0]], 'm');
    assert_eq!(d.cursor.curr_fg, 0xff00_00ff);
    d.csi_dispatch(&vec![vec![49], vec![39]], 'm');
    assert_eq!(d.cursor.curr_bg, NONE);
    assert_eq!(d.cursor.curr_fg, WHITE_COLOR);
    d.csi_dispatch(&vec![vec![41]], 'm');
    d.insert_char('q');
    assert_eq!(cell(&d, 0, 0).bg, RED);
    d.csi_dispatch(&vec![vec![0]], 'm');
    assert_eq!(d.cursor.curr_bg, NONE);
    assert_eq!(d.cursor.curr_fg, WHITE_COLOR);
    d.csi_dispatch(&vec![vec![38], vec![5], vec![31]], 'm');
    assert_eq!(d.cursor.curr_fg, RED);
}

#[test]
fn cursor_report_request() {
    let mut d = TermDisplay::new(5, 3);
    write(&mut d, "ab\nc");
    d.csi_dispatch(&vec![vec![6]], 'n');
    d.csi_dispatch(&vec![vec![5]], 'n');
    d.csi_dispatch(&vec![vec![6, 1]], 'n');
    let reqs = d.collect_requests();
    assert_eq!(reqs, vec![TermRequest::CursorRequest((1, 1))]);
    assert!(d.collect_requests().is_empty());
}

#[test]
fn save_and_restore_cursor() {
    let mut d = TermDisplay::new(5, 3);
    d.csi_dispatch(&vec![vec![31]], 'm');
    write(&mut d, "ab");
    d.esc_dispatch(b'7');
    d.csi_dispatch(&vec![vec![0]], 'm');
    write(&mut d, "\ncd");
    assert_eq!(d.cursor(), (2, 1));
    d.esc_dispatch(b'8');
    assert_eq!(d.cursor(), (2, 0));
    assert_eq!(d.cursor.curr_fg, RED);
    d.esc_dispatch(b'x');
    assert_eq!(d.cursor(), (2, 0));
}

#[test]
fn control_bytes() {
    let mut d = TermDisplay::new(5, 3);
    write(&mut d, "abc");
    assert!(!d.execute(0x0d));
    assert_eq!(d.cursor(), (0, 0));
    assert!(d.execute(0x07));
    assert!(!d.execute(0x09));
    assert_eq!(cell(&d, 0, 0).c, '\t');
    assert!(!d.execute(0x0a));
    assert_eq!(d.cursor(), (0, 1));
    assert!(!d.execute(0x08));
    assert_eq!(d.cursor(), (4, 0));
    assert!(!d.execute(0x1b));
    assert_eq!(d.cursor(), (4, 0));
}

#[test]
fn viewport_and_damage() {
    let mut d = TermDisplay::new(4, 6);
    d.set_viewport_lines(2);
    d.move_view_by(3);
    assert_eq!(d.viewport_index, 3);
    assert_eq!(d.collect_damage(), Some((3, 5)));
    assert_eq!(d.collect_damage(), None);
    d.move_view_by(100);
    assert_eq!(d.viewport_index, 5);
    d.move_view_by(-100);
    assert_eq!(d.viewport_index, 0);
    d.collect_damage();
    write(&mut d, "ab\ncd\nef");
    assert_eq!(d.cursor(), (2, 2));
    assert_eq!(d.viewport_index, 1);
    assert_eq!(d.collect_damage(), Some((1, 3)));
}

#[test]
fn grid_shift_up() {
    let mut g = Grid::new(2, 2);
    g.rows[0].put(0, 'a', RED, NONE, NORMAL_WEIGHT, 0);
    g.rows[1].put(0, 'b', RED, NONE, NORMAL_WEIGHT, 0);
    g.shift_up();
    assert_eq!(g.height(), 2);
    assert_eq!(g.width(), 2);
    assert_eq!(g.rows[0].cells[0].c, 'b');
    assert_eq!(g.rows[1].cells[0], Cell::blank());
}

#[test]
fn row_clear_and_put() {
    let mut r = Row::empty(4);
    r.put(1, 'x', RED, NONE, NORMAL_WEIGHT, 0);
    assert!(r.dirty);
    assert!(!r.empty);
    r.clear(0, 2);
    assert_eq!(r.cells[1], Cell::blank());
    assert!(!r.empty);
    r.clear(0, 4);
    assert!(r.empty);
    let mut r = Row::empty(2);
    r.put(0, ' ', NONE, NONE, NORMAL_WEIGHT, 0);
    assert!(!r.dirty);
    assert!(r.empty);
}

#[test]
fn row_layout_runs() {
    let mut r = Row::empty(5);
    assert_eq!(r.prepare_data(), None);
    r.put(0, 'a', RED, NONE, NORMAL_WEIGHT, 0);
    r.put(1, 'b', RED, NONE, NORMAL_WEIGHT, 0);
    r.put(3, 'c', RED, NONE, BOLD_WEIGHT, 0);
    assert_eq!(r.prepare_data(), Some(vec![0, 2, 3, 4]));
    assert!(!r.dirty);
    assert_eq!(r.prepare_data(), None);
    r.clear(0, 5);
    assert_eq!(r.prepare_data(), Some(vec![]));
}

#[test]
fn extra_attributes() {
    let a = ExtraAttributes { extra_flags: 6, background_color: 0 };
    assert!(!a.should_skip());
    assert_eq!(a.bg(), None);
    let b = a.with_bg(RED).with_should_skip(true);
    assert_eq!(b.bg(), Some(RED));
    assert_eq!(b.extra_flags, 0);
    let c = ExtraAttributes { extra_flags: 7, background_color: 0 }.with_should_skip(false);
    assert_eq!(c.extra_flags, 6);
    assert!(ExtraAttributes { extra_flags: 3, background_color: 0 }.with_should_skip(true).should_skip());
}
