use rustmux::chrome::{bar_style, clipped, compose, pane_rows};
use rustmux::parser::Parser;
use rustmux::screen::Screen;

fn bar_text(view: &Screen, row: usize) -> String {
    view.row(row).unwrap().iter().filter(|c| c.width != 0).map(|c| c.character).collect()
}

#[test]
fn bar_preserves_child_rows_and_cursor() {
    let mut child = Screen::new(3, 40).unwrap();
    Parser::new().advance(&mut child, b"content\x1b[2;3r\x1b[?6h");
    let before = child.clone();
    let view = compose(&child, 4, &["first".into(), "中文".into()], 1).unwrap();
    assert_eq!(child, before);
    for row in 0..3 {
        assert_eq!(view.row(row), child.row(row));
    }
    assert_eq!(view.cursor(), child.cursor());
    assert_eq!(view.origin_mode(), child.origin_mode());
    let bar = bar_text(&view, 3);
    assert!(bar.contains("1:first"));
    assert!(bar.contains("*2:中文"));
    assert_eq!(view.row(3).unwrap()[0].style, bar_style(false));
}

#[test]
fn narrow_bar_keeps_active_label_visible_and_does_not_split_wide_glyphs() {
    for columns in [1, 2, 4, 7, 12] {
        let child = Screen::new(1, columns).unwrap();
        let view = compose(&child, 2, &["very long".into(), "中e\u{301}\x1b[31m".into()], 1).unwrap();
        let row = view.row(1).unwrap();
        assert_eq!(row[0].style, bar_style(true));
        for (index, cell) in row.iter().enumerate() {
            if cell.width == 2 {
                assert!(index + 1 < columns);
                assert_eq!(row[index + 1].width, 0);
            }
            assert!(!cell.character.is_control());
        }
    }
    assert_eq!(pane_rows(1), 1);
    assert_eq!(pane_rows(0), 1);
    assert_eq!(pane_rows(24), 23);
    let child = Screen::new(1, 10).unwrap();
    assert_eq!(compose(&child, 1, &["hidden".into()], 0).unwrap(), child);
}

#[test]
fn labels_are_clipped_by_column_width_without_control_characters() {
    assert_eq!(clipped("ab\u{7}cd", 3), "abc");
    assert_eq!(clipped("\u{301}x", 5), "x");
    assert_eq!(clipped("中文", 3), "中");
    assert_eq!(clipped("", 3), "");
    let child = Screen::new(1, 30).unwrap();
    let view = compose(&child, 2, &["one".into(), "two".into(), "three".into()], 0).unwrap();
    assert_eq!(bar_text(&view, 1).trim_end(), " *1:one  2:two  3:three");
}

#[test]
fn bar_with_no_windows_is_an_empty_row() {
    let child = Screen::new(2, 5).unwrap();
    let view = compose(&child, 3, &[], 0).unwrap();
    assert_eq!(bar_text(&view, 2), "     ");
}
