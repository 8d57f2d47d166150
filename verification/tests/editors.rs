use nyado::multiline::TextEditor;
use nyado::popup::{edit_popup_area, mode_for, readonly_layout, Area, EditKey, EditOutcome, LineEditor, PopupMode};

fn text_of(e: &TextEditor) -> Vec<String> {
    e.lines.iter().map(|l| l.iter().collect()).collect()
}

#[test]
fn line_editor_types_moves_and_deletes() {
    let mut e = LineEditor::new("ab", 16);
    assert_eq!(e.cursor, 2);
    assert_eq!(e.handle_key(EditKey::Char('c')), EditOutcome::Continue);
    assert_eq!(e.result(), Some("abc".to_string()));
    e.handle_key(EditKey::Left);
    e.handle_key(EditKey::Left);
    e.handle_key(EditKey::Char('X'));
    assert_eq!(e.result(), Some("aXbc".to_string()));
    assert_eq!(e.cursor, 2);
    e.handle_key(EditKey::Backspace);
    assert_eq!(e.result(), Some("abc".to_string()));
    assert_eq!(e.cursor, 1);
    e.handle_key(EditKey::Right);
    e.handle_key(EditKey::Right);
    e.handle_key(EditKey::Right);
    assert_eq!(e.cursor, 3);
    assert_eq!(e.handle_key(EditKey::Enter), EditOutcome::Submit);
    assert_eq!(e.handle_key(EditKey::Esc), EditOutcome::Cancel);
}

#[test]
fn line_editor_stops_at_its_limit() {
    let mut e = LineEditor::new("", 3);
    for c in "abcdef".chars() {
        e.handle_key(EditKey::Char(c));
    }
    assert_eq!(e.result(), Some("abc".to_string()));
    e.handle_key(EditKey::Backspace);
    e.handle_key(EditKey::Backspace);
    e.handle_key(EditKey::Backspace);
    e.handle_key(EditKey::Backspace);
    assert_eq!(e.result(), None);
    assert_eq!(e.cursor, 0);
}

#[test]
fn typing_then_backspace_restores_line() {
    let mut e = LineEditor::new("hello", 16);
    e.handle_key(EditKey::Left);
    let before: Vec<char> = e.chars.clone();
    let cursor = e.cursor;
    e.handle_key(EditKey::Char('Z'));
    e.handle_key(EditKey::Backspace);
    assert_eq!(e.chars, before);
    assert_eq!(e.cursor, cursor);
}

#[test]
fn line_editor_view_scrolls_to_the_cursor() {
    let mut e = LineEditor::new("hello", 16);
    let v = e.layout(20);
    assert_eq!(v.display, "hello");
    assert_eq!(v.cursor_col, 5);
    assert!(v.show_cursor);
    let mut e = LineEditor::new("abcdefghijklmnopqrst", 32);
    let v = e.layout(20);
    assert_eq!(e.scroll, 9);
    assert_eq!(v.display, "jklmnopqrst");
    assert_eq!(v.cursor_col, 11);
    e.handle_key(EditKey::Left);
    for _ in 0..15 {
        e.handle_key(EditKey::Left);
    }
    let v = e.layout(20);
    assert_eq!(e.cursor, 4);
    assert_eq!(e.scroll, 4);
    assert_eq!(v.display, "efghijklmno…");
    assert_eq!(v.cursor_col, 0);
}

#[test]
fn text_editor_edits_and_joins_lines() {
    let mut e = TextEditor::new("hello\nworld", 256, 60);
    assert_eq!(text_of(&e), vec!["hello", "world"]);
    assert_eq!((e.cursor_x, e.cursor_y), (0, 0));
    e.handle_key(EditKey::End, 74);
    e.handle_key(EditKey::Char('!'), 74);
    assert_eq!(e.result(), Some("hello!\nworld".to_string()));
    e.handle_key(EditKey::Down, 74);
    assert_eq!((e.cursor_x, e.cursor_y), (5, 1));
    e.handle_key(EditKey::Home, 74);
    e.handle_key(EditKey::Backspace, 74);
    assert_eq!(text_of(&e), vec!["hello!world"]);
    assert_eq!((e.cursor_x, e.cursor_y), (6, 0));
    e.handle_key(EditKey::Delete, 74);
    assert_eq!(text_of(&e), vec!["hello!orld"]);
    assert_eq!(e.handle_key(EditKey::Enter, 74), EditOutcome::Submit);
}

#[test]
fn text_editor_wraps_long_lines() {
    let long: String = std::iter::repeat('a').take(70).collect();
    let e = TextEditor::new(&long, 256, 60);
    let t = text_of(&e);
    assert_eq!(t.len(), 2);
    assert_eq!(t[0].chars().count(), 60);
    assert_eq!(t[1].chars().count(), 10);

    let sixty: String = std::iter::repeat('b').take(60).collect();
    let mut e = TextEditor::new(&sixty, 256, 60);
    e.handle_key(EditKey::End, 74);
    e.handle_key(EditKey::Char('!'), 74);
    assert_eq!(text_of(&e), vec![sixty.clone(), "!".to_string()]);
    assert_eq!((e.cursor_x, e.cursor_y), (1, 1));
    e.handle_key(EditKey::Backspace, 74);
    assert_eq!(text_of(&e), vec![sixty.clone()]);
    assert_eq!((e.cursor_x, e.cursor_y), (60, 0));
}

#[test]
fn text_editor_keeps_within_its_limit() {
    let mut e = TextEditor::new("abc", 5, 60);
    for c in "xyzw".chars() {
        e.handle_key(EditKey::Char(c), 74);
    }
    assert_eq!(e.result(), Some("xyabc".to_string()));
}

#[test]
fn text_editor_empty_gives_nothing() {
    let e = TextEditor::new("", 256, 60);
    assert_eq!(text_of(&e), vec![""]);
    assert_eq!(e.result(), None);
}

#[test]
fn text_editor_pages_and_scrolls() {
    let text = (0..12).map(|i| format!("l{}", i)).collect::<Vec<_>>().join("\n");
    let mut e = TextEditor::new(&text, 256, 60);
    e.handle_key(EditKey::PageDown, 74);
    assert_eq!(e.cursor_y, 5);
    e.handle_key(EditKey::PageDown, 74);
    e.handle_key(EditKey::PageDown, 74);
    assert_eq!(e.cursor_y, 11);
    let v = e.layout(74);
    assert_eq!(e.scroll, 7);
    assert_eq!(v.rows, vec!["l7", "l8", "l9", "l10", "l11"]);
    assert_eq!(v.cursor_row, 4);
    e.handle_key(EditKey::PageUp, 74);
    assert_eq!(e.cursor_y, 6);
    e.handle_key(EditKey::End, 74);
    let v = e.layout(74);
    assert_eq!(e.scroll, 6);
    assert_eq!(v.cursor_row, 0);
    assert_eq!(v.cursor_col, 2);
}

#[test]
fn text_editor_cuts_wide_rows_in_narrow_popup() {
    let mut e = TextEditor::new("abcdefghij", 256, 60);
    let v = e.layout(14);
    assert_eq!(v.rows, vec!["abcde…"]);
}

#[test]
fn popup_areas_on_terminals() {
    assert_eq!(edit_popup_area(100, 30, 7), Some(Area { x: 13, y: 11, width: 74, height: 7 }));
    assert_eq!(edit_popup_area(40, 30, 12), Some(Area { x: 2, y: 9, width: 36, height: 12 }));
    assert_eq!(edit_popup_area(100, 8, 7), None);
    assert_eq!(edit_popup_area(4, 30, 7), None);
    assert_eq!(mode_for(true), PopupMode::Multiline);
    assert_eq!(mode_for(false), PopupMode::Singleline);
}

#[test]
fn readonly_popup_fits_its_text() {
    let l = readonly_layout("line one\nline two", "", 100, 40).unwrap();
    assert_eq!(l.area, Area { x: 43, y: 17, width: 14, height: 6 });
    assert_eq!(l.hint_rows, 0);
    assert_eq!(l.rows, vec!["line one", "line two"]);
    let l = readonly_layout("abc", "hint\nmore", 100, 40).unwrap();
    assert_eq!(l.hint_rows, 2);
    assert_eq!(l.area.width, 10);
    assert_eq!(l.area.height, 7);
    let l = readonly_layout("abcdef", "", 11, 40).unwrap();
    assert_eq!(l.area.width, 7);
    assert_eq!(l.rows, vec!["…"]);
    assert!(readonly_layout("", "hint", 100, 40).is_none());
    assert!(readonly_layout("abc", "", 4, 40).is_none());
    assert!(readonly_layout("abc", "", 0, 40).is_none());
    assert!(readonly_layout("abc", "", 10, 40).is_none());
    let l = readonly_layout("\n", "x", 10, 20).unwrap();
    assert_eq!(l.area, Area { x: 2, y: 7, width: 6, height: 6 });
    assert_eq!(l.rows, vec![""]);
    assert_eq!(l.hint_rows, 1);
    let l = readonly_layout("ab", "", 12, 40).unwrap();
    assert_eq!(l.area.width, 8);
    assert_eq!(l.rows, vec!["ab"]);
    assert!(readonly_layout("abc", "", 100, 4).is_none());
}

#[test]
fn typed_lines_stay_within_the_width() {
    let mut e = TextEditor::new("", 256, 60);
    for i in 0..200 {
        e.handle_key(EditKey::Char((b'a' + (i % 26) as u8) as char), 74);
        if i % 37 == 0 {
            e.handle_key(EditKey::Left, 74);
        }
    }
    for _ in 0..30 {
        e.handle_key(EditKey::Up, 74);
        e.handle_key(EditKey::Home, 74);
        e.handle_key(EditKey::Backspace, 74);
    }
    assert!(e.lines.iter().all(|l| l.len() <= 60));
    assert_eq!(e.result().unwrap().replace('\n', "").len(), 200);
}
