use chameleon::screen::{Cell, Screen};
use chameleon::selection::{
    is_word_char, next_click_count, selection_for_click, selection_line_at, selection_word_at,
    Selection,
};

fn type_str(s: &mut Screen, text: &str) {
    for c in text.chars() {
        s.put_char(c);
    }
}

fn row_text(s: &Screen, r: usize) -> String {
    (0..s.row_len(r)).map(|c| s.cell(r, c).ch).collect()
}

#[test]
fn new_screen_is_blank() {
    let s = Screen::new(3, 4);
    assert_eq!(s.rows(), 3);
    assert_eq!(s.cols(), 4);
    assert_eq!(s.grid_len(), 3);
    assert_eq!((s.cursor_row(), s.cursor_col()), (0, 0));
    for r in 0..3 {
        assert_eq!(s.row_len(r), 4);
        for c in 0..4 {
            assert_eq!(s.cell(r, c), Cell::blank());
        }
    }
    assert_eq!(Cell::default(), Cell { ch: ' ', fg: 7, bg: 0, bold: false });
}

#[test]
fn put_char_wraps_and_scrolls() {
    let mut s = Screen::new(2, 3);
    type_str(&mut s, "abc");
    assert_eq!(row_text(&s, 0), "abc");
    assert_eq!((s.cursor_row(), s.cursor_col()), (1, 0));
    type_str(&mut s, "def");
    // the last row filled up: the screen scrolled and the cursor wrapped to a fresh last row
    assert_eq!(row_text(&s, 0), "def");
    assert_eq!(row_text(&s, 1), "   ");
    assert_eq!((s.cursor_row(), s.cursor_col()), (1, 0));
    type_str(&mut s, "g");
    assert_eq!(row_text(&s, 0), "def");
    assert_eq!(row_text(&s, 1), "g  ");
    type_str(&mut s, "hi");
    assert_eq!(row_text(&s, 0), "ghi");
    assert_eq!(row_text(&s, 1), "   ");
    assert_eq!((s.cursor_row(), s.cursor_col()), (1, 0));
}

#[test]
fn control_bytes_move_cursor() {
    let mut s = Screen::new(3, 20);
    type_str(&mut s, "ab");
    s.execute(0x08);
    assert_eq!(s.cursor_col(), 1);
    s.execute(0x09);
    assert_eq!(s.cursor_col(), 8);
    s.execute(0x09);
    assert_eq!(s.cursor_col(), 16);
    s.execute(0x09);
    assert_eq!((s.cursor_row(), s.cursor_col()), (1, 0));
    s.execute(0x0d);
    s.execute(0x0a);
    s.execute(0x0b);
    assert_eq!((s.cursor_row(), s.cursor_col()), (2, 0));
    type_str(&mut s, "z");
    s.execute(0x0c);
    assert_eq!(s.cursor_row(), 2);
    assert_eq!(row_text(&s, 1).trim_end(), "z");
    s.execute(0x07);
    assert_eq!((s.cursor_row(), s.cursor_col()), (2, 1));
}

#[test]
fn csi_cursor_movement() {
    let mut s = Screen::new(5, 10);
    s.csi_dispatch(&[3, 4], 'H');
    assert_eq!((s.cursor_row(), s.cursor_col()), (2, 3));
    s.csi_dispatch(&[], 'H');
    assert_eq!((s.cursor_row(), s.cursor_col()), (0, 0));
    s.csi_dispatch(&[99, 99], 'f');
    assert_eq!((s.cursor_row(), s.cursor_col()), (4, 9));
    s.csi_dispatch(&[2], 'A');
    assert_eq!(s.cursor_row(), 2);
    s.csi_dispatch(&[], 'A');
    assert_eq!(s.cursor_row(), 1);
    s.csi_dispatch(&[10], 'B');
    assert_eq!(s.cursor_row(), 4);
    s.csi_dispatch(&[4], 'D');
    assert_eq!(s.cursor_col(), 5);
    s.csi_dispatch(&[2], 'C');
    assert_eq!(s.cursor_col(), 7);
    s.csi_dispatch(&[1], 'G');
    assert_eq!(s.cursor_col(), 0);
    s.csi_dispatch(&[0], 'd');
    assert_eq!(s.cursor_row(), 0);
    s.csi_dispatch(&[3], 'z');
    assert_eq!((s.cursor_row(), s.cursor_col()), (0, 0));
}

#[test]
fn csi_erase() {
    let mut s = Screen::new(3, 3);
    type_str(&mut s, "abcdefgh");
    s.csi_dispatch(&[2, 2], 'H');
    s.csi_dispatch(&[0], 'K');
    assert_eq!(row_text(&s, 1), "d  ");
    s.csi_dispatch(&[1], 'K');
    assert_eq!(row_text(&s, 1), "   ");
    let mut s = Screen::new(3, 3);
    type_str(&mut s, "abcdefgh");
    s.csi_dispatch(&[2, 2], 'H');
    s.csi_dispatch(&[0], 'J');
    assert_eq!(row_text(&s, 0), "abc");
    assert_eq!(row_text(&s, 1), "d  ");
    assert_eq!(row_text(&s, 2), "   ");
    let mut s = Screen::new(3, 3);
    type_str(&mut s, "abcdefgh");
    s.csi_dispatch(&[2, 2], 'H');
    // no parameter means 1: erase from the start to the cursor
    s.csi_dispatch(&[], 'J');
    assert_eq!(row_text(&s, 0), "   ");
    assert_eq!(row_text(&s, 1), "  f");
    assert_eq!(row_text(&s, 2), "gh ");
    s.csi_dispatch(&[2], 'K');
    assert_eq!(row_text(&s, 1), "   ");
    s.csi_dispatch(&[2], 'J');
    assert_eq!(row_text(&s, 2), "   ");
}

#[test]
fn sgr_sets_attributes() {
    let mut s = Screen::new(2, 10);
    s.csi_dispatch(&[1, 31, 42], 'm');
    type_str(&mut s, "a");
    assert_eq!(s.cell(0, 0), Cell { ch: 'a', fg: 1, bg: 2, bold: true });
    s.csi_dispatch(&[38, 5, 203, 48, 5, 9], 'm');
    type_str(&mut s, "b");
    // the parameter after a 256-colour code is skipped as well
    assert_eq!(s.cell(0, 1), Cell { ch: 'b', fg: 3, bg: 2, bold: true });
    s.csi_dispatch(&[0], 'm');
    type_str(&mut s, "c");
    assert_eq!(s.cell(0, 2), Cell { ch: 'c', fg: 7, bg: 0, bold: false });
    s.csi_dispatch(&[38, 2, 44], 'm');
    type_str(&mut s, "d");
    // without `5` after 38 one parameter is skipped and 44 sets the background
    assert_eq!(s.cell(0, 3), Cell { ch: 'd', fg: 7, bg: 4, bold: false });
    s.csi_dispatch(&[39, 49], 'm');
    type_str(&mut s, "e");
    assert_eq!(s.cell(0, 4), Cell { ch: 'e', fg: 7, bg: 0, bold: false });
}

#[test]
fn esc_sequences() {
    let mut s = Screen::new(2, 10);
    type_str(&mut s, "top");
    s.esc_dispatch(0x4d);
    assert_eq!(row_text(&s, 0).trim_end(), "");
    assert_eq!(row_text(&s, 1).trim_end(), "top");
    s.esc_dispatch(0x45);
    assert_eq!((s.cursor_row(), s.cursor_col()), (1, 0));
    s.esc_dispatch(0x44);
    assert_eq!(row_text(&s, 0).trim_end(), "top");
    assert_eq!(s.cursor_row(), 1);
    s.esc_dispatch(0x48);
    assert_eq!(s.cursor_col(), 8);
    s.esc_dispatch(0x4d);
    assert_eq!(s.cursor_row(), 0);
}

#[test]
fn resize_keeps_content_and_clamps_cursor() {
    let mut s = Screen::new(3, 4);
    type_str(&mut s, "abcdefghij");
    assert_eq!((s.cursor_row(), s.cursor_col()), (2, 2));
    s.resize(2, 2);
    assert_eq!(s.grid_len(), 2);
    assert_eq!(row_text(&s, 0), "ab");
    assert_eq!(row_text(&s, 1), "ef");
    assert_eq!((s.cursor_row(), s.cursor_col()), (1, 1));
    s.resize(3, 5);
    assert_eq!(row_text(&s, 0), "ab   ");
    assert_eq!(row_text(&s, 2), "     ");
    let mut z = Screen::new(0, 0);
    z.put_char('x');
    z.execute(0x09);
    z.execute(0x0a);
    assert_eq!((z.cursor_row(), z.cursor_col()), (0, 0));
}

#[test]
fn recent_text_trims_rows() {
    let mut s = Screen::new(3, 4);
    type_str(&mut s, "ab");
    s.execute(0x0d);
    s.execute(0x0a);
    type_str(&mut s, "c d");
    assert_eq!(s.get_recent_text(2), "c d\n");
    assert_eq!(s.get_recent_text(10), "ab\nc d\n");
    assert_eq!(s.get_recent_text(0), "");
}

#[test]
fn put_cell_ignores_off_grid() {
    let mut s = Screen::new(1, 1);
    s.put_cell(0, 1, Cell { ch: 'x', fg: 1, bg: 1, bold: false });
    s.put_cell(1, 0, Cell { ch: 'x', fg: 1, bg: 1, bold: false });
    assert_eq!(s.cell(0, 0), Cell::blank());
    s.put_cell(0, 0, Cell { ch: 'y', fg: 1, bg: 2, bold: true });
    assert_eq!(s.cell(0, 0).ch, 'y');
    s.scroll_up();
    assert_eq!(s.cell(0, 0), Cell::blank());
    s.put_cell(0, 0, Cell { ch: 'y', fg: 1, bg: 2, bold: true });
    s.scroll_down();
    assert_eq!(s.cell(0, 0), Cell::blank());
}

#[test]
fn selection_extract_in_reading_order() {
    let mut s = Screen::new(3, 5);
    type_str(&mut s, "helloworldfoo");
    let sel = Selection { start_row: 1, start_col: 2, end_row: 0, end_col: 3 };
    assert_eq!(sel.normalized(), (0, 3, 1, 2));
    assert_eq!(sel.extract_from(&s), "lo\nwor");
    assert!(sel.contains_cell(0, 4));
    assert!(sel.contains_cell(1, 0));
    assert!(!sel.contains_cell(1, 3));
    assert!(!sel.contains_cell(0, 2));
    assert!(!sel.is_empty());
    let all = Selection { start_row: 0, start_col: 0, end_row: 4, end_col: 9 };
    assert_eq!(all.extract_from(&s), "hello\nworld\nfoo\n\n");
    assert!(Selection { start_row: 2, start_col: 1, end_row: 2, end_col: 1 }.is_empty());
    assert!(Selection::stream_order_before(1, 5, 2, 0));
    assert!(!Selection::stream_order_before(2, 1, 2, 0));
}

#[test]
fn word_and_line_selection() {
    let mut s = Screen::new(2, 12);
    type_str(&mut s, "foo_bar1 x-y");
    assert_eq!(selection_word_at(&s, 0, 2), (0, 0, 0, 7));
    assert_eq!(selection_word_at(&s, 0, 8), (0, 8, 0, 8));
    assert_eq!(selection_word_at(&s, 0, 11), (0, 11, 0, 11));
    assert_eq!(selection_word_at(&s, 5, 2), (5, 2, 5, 2));
    assert_eq!(selection_word_at(&s, 0, 40), (0, 40, 0, 40));
    assert_eq!(selection_line_at(&s, 1), (1, 0, 1, 11));
    assert_eq!(selection_line_at(&s, 9), (9, 0, 9, 0));
    assert!(is_word_char('é'));
    assert!(is_word_char('7'));
    assert!(!is_word_char('-'));
    let sel = selection_for_click(&s, 0, 1, 2);
    assert_eq!(sel, Selection { start_row: 0, start_col: 0, end_row: 0, end_col: 7 });
    let sel = selection_for_click(&s, 0, 1, 3);
    assert_eq!(sel, Selection { start_row: 0, start_col: 0, end_row: 0, end_col: 11 });
    let sel = selection_for_click(&s, 0, 1, 1);
    assert_eq!(sel, Selection { start_row: 0, start_col: 1, end_row: 0, end_col: 1 });
    assert_eq!(next_click_count(None, 1, 1, true), 1);
    assert_eq!(next_click_count(Some((1, 1, 1)), 1, 1, true), 2);
    assert_eq!(next_click_count(Some((1, 1, 3)), 1, 1, true), 3);
    assert_eq!(next_click_count(Some((1, 1, 2)), 1, 2, true), 1);
    assert_eq!(next_click_count(Some((1, 1, 2)), 1, 1, false), 1);
}

#[test]
fn colours_stay_standard() {
    let mut s = Screen::new(3, 6);
    s.csi_dispatch(&[38, 5, 255, 48, 5, 250], 'm');
    type_str(&mut s, "ab");
    s.csi_dispatch(&[37, 47, 1], 'm');
    type_str(&mut s, "cd");
    s.esc_dispatch(0x4d);
    s.resize(4, 8);
    s.csi_dispatch(&[1], 'K');
    for r in 0..s.grid_len() {
        for c in 0..s.row_len(r) {
            let cell = s.cell(r, c);
            assert!(cell.fg < 8 && cell.bg < 8);
        }
    }
    assert_eq!(s.cell(1, 2), Cell { ch: 'c', fg: 7, bg: 7, bold: true });
    assert_eq!(s.cell(1, 7), Cell::blank());
}

#[test]
fn resize_to_same_size_changes_nothing() {
    let mut s = Screen::new(2, 3);
    type_str(&mut s, "abcd");
    let before: Vec<String> = (0..2).map(|r| row_text(&s, r)).collect();
    let cursor = (s.cursor_row(), s.cursor_col());
    s.resize(2, 3);
    let after: Vec<String> = (0..2).map(|r| row_text(&s, r)).collect();
    assert_eq!(before, after);
    assert_eq!((s.cursor_row(), s.cursor_col()), cursor);
}

#[test]
fn highlighted_cells() {
    let sel = Selection { start_row: 1, start_col: 5, end_row: 0, end_col: 2 };
    assert!(Selection::highlights(Some(&sel), 0, 2));
    assert!(Selection::highlights(Some(&sel), 0, 40));
    assert!(Selection::highlights(Some(&sel), 1, 5));
    assert!(!Selection::highlights(Some(&sel), 1, 6));
    assert!(!Selection::highlights(Some(&sel), 0, 1));
    let empty = Selection { start_row: 1, start_col: 1, end_row: 1, end_col: 1 };
    assert!(!Selection::highlights(Some(&empty), 1, 1));
    assert!(!Selection::highlights(None, 0, 0));
}

#[test]
fn printed_char_reads_back() {
    let mut s = Screen::new(2, 3);
    s.csi_dispatch(&[32], 'm');
    s.put_char('a');
    assert_eq!(s.cell(0, 0), Cell { ch: 'a', fg: 2, bg: 0, bold: false });
    s.csi_dispatch(&[2, 3], 'H');
    s.put_char('z');
    // the last cell of the last row: the screen scrolls and the character moves up a row
    assert_eq!(s.cell(0, 2), Cell { ch: 'z', fg: 2, bg: 0, bold: false });
    assert_eq!(s.cell(1, 2), Cell::blank());
}
