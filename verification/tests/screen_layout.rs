use nyado::layout::{
    bongo_rows, is_too_small, mood_key, mood_row, panel_layout, plan_content, split_main,
    stat_row, stats_header_label, status_hint, status_message, tag_color_index, tag_is_active,
    tag_row, text_rows, topbar_clock_x, topbar_fits, topbar_spans, ContentFrame, ContentPlan,
    MainSplit,
};
use nyado::layout::{list_top_for, row_kind, task_row, RowKind};
use nyado::popup::Area;
use nyado::todo::Todo;

#[test]
fn terminal_minimum_size() {
    assert!(is_too_small(29, 40));
    assert!(is_too_small(80, 9));
    assert!(!is_too_small(30, 10));
}

#[test]
fn main_area_split() {
    assert_eq!(split_main(100), MainSplit { left_width: 58, right_width: 42, show_right: true });
    assert_eq!(split_main(80), MainSplit { left_width: 80, right_width: 0, show_right: false });
    assert_eq!(split_main(90), MainSplit { left_width: 52, right_width: 38, show_right: true });
    assert_eq!(split_main(30), MainSplit { left_width: 30, right_width: 0, show_right: false });
    assert_eq!(split_main(2000), MainSplit { left_width: 504, right_width: 1496, show_right: true });
}

#[test]
fn right_panel_layouts() {
    let wide = panel_layout(Area { x: 10, y: 2, width: 70, height: 30 });
    let cat = Area { x: 49, y: 2, width: 30, height: 30 };
    assert_eq!(wide.content, Some(ContentFrame { x: 12, width: 36, start_y: 2, bottom: 32 }));
    assert_eq!(wide.cat, Some(cat));
    assert_eq!(wide.mood_area, Some(cat));

    let tall = panel_layout(Area { x: 0, y: 2, width: 40, height: 40 });
    assert_eq!(tall.cat, Some(Area { x: 0, y: 2, width: 40, height: 16 }));
    assert_eq!(tall.content, Some(ContentFrame { x: 2, width: 36, start_y: 18, bottom: 42 }));

    let small = panel_layout(Area { x: 0, y: 2, width: 25, height: 10 });
    assert_eq!(small.cat, None);
    assert_eq!(small.content, Some(ContentFrame { x: 2, width: 21, start_y: 3, bottom: 12 }));

    let narrow = panel_layout(Area { x: 0, y: 2, width: 19, height: 40 });
    assert_eq!(narrow.content, None);
    assert_eq!(narrow.mood_area, None);
}

#[test]
fn cat_rows() {
    assert_eq!(bongo_rows(Area { x: 10, y: 2, width: 30, height: 30 }), Some((9, 2, 16)));
    assert_eq!(bongo_rows(Area { x: 0, y: 0, width: 30, height: 16 }), Some((0, 0, 15)));
    assert_eq!(bongo_rows(Area { x: 0, y: 0, width: 29, height: 30 }), None);
    assert_eq!(bongo_rows(Area { x: 0, y: 0, width: 40, height: 15 }), None);
}

#[test]
fn mood_lines() {
    assert_eq!(mood_key(0, 3), "mood_all_done");
    assert_eq!(mood_key(0, 0), "mood_empty");
    assert_eq!(mood_key(1, 5), "mood_one");
    assert_eq!(mood_key(3, 5), "mood_few");
    assert_eq!(mood_key(7, 9), "mood_several");
    assert_eq!(mood_key(8, 9), "mood_many");
    let a = Area { x: 5, y: 2, width: 10, height: 20 };
    assert_eq!(mood_row(a, "happy"), Some(Area { x: 5, y: 21, width: 10, height: 1 }));
    assert_eq!(mood_row(a, "very happy"), None);
}

#[test]
fn status_bar_hints_and_message() {
    assert_eq!(status_hint("a wide hint here", "medium", "n", 12), (1, true));
    assert_eq!(status_hint("a wide hint here", "medium", "n", 40), (0, true));
    assert_eq!(status_hint("a wide hint here", "medium", "narrow", 5), (2, false));
    let bar = Area { x: 0, y: 20, width: 20, height: 1 };
    assert_eq!(status_message("", bar), None);
    assert_eq!(status_message("saved", bar), Some(("saved".to_string(), 13)));
    assert_eq!(status_message("a very long message indeed", bar), Some(("a very long messag".to_string(), 0)));
}

#[test]
fn top_bar_pieces() {
    let s = topbar_spans("nyado", "tag: ", "work", "search: ", "milk");
    assert_eq!(s, vec!["nyado", " ", "tag: work ", " ", "search: milk/ "]);
    let s = topbar_spans("nyado", "tag: ", "", "search: ", "milk");
    assert_eq!(s, vec!["nyado", " ", "search: milk/ "]);
    assert!(topbar_fits(&s, 20));
    assert!(!topbar_fits(&s, 19));
    let bar = Area { x: 0, y: 0, width: 40, height: 1 };
    assert_eq!(topbar_clock_x(bar, 16), Some(22));
    assert_eq!(topbar_clock_x(bar, 0), None);
}

#[test]
fn details_texts() {
    assert_eq!(stats_header_label("Stats", 20), Some("[ Stats ]".to_string()));
    assert_eq!(stats_header_label("Statistics", 10), Some("[Statis]".to_string()));
    assert_eq!(stats_header_label("Stats", 3), None);
    let (label, count) = stat_row("Pending", 5);
    assert_eq!(label, format!("Pending{}", " ".repeat(11)));
    assert_eq!(label.chars().count(), 18);
    assert_eq!(count, "5");
    let (label, _) = stat_row("A very long label here", 0);
    assert_eq!(label, "A very long label here ");
    assert_eq!(tag_row(0, "work", 3), " 1  #work     (3)");
    assert_eq!(tag_row(8, "verylongtag", 12), " 9  #verylongtag (12)");
    assert!(tag_is_active("work", "work"));
    assert!(!tag_is_active("", ""));
    assert!(!tag_is_active("work", "home"));
}

#[test]
fn task_text_rows() {
    assert_eq!(text_rows("hello world\n\nabc", 4), vec!["hell", "o wo", "rld", "abc"]);
    assert_eq!(text_rows("", 4), Vec::<String>::new());
    assert_eq!(text_rows("abcd", 4), vec!["abcd"]);
}

#[test]
fn details_plan() {
    assert_eq!(
        plan_content(2, 32, 36, 3, true),
        ContentPlan { stat_rows: 4, tags_shown: true, tag_rows: 3, details: Some((13, 17)) }
    );
    assert_eq!(
        plan_content(2, 8, 36, 3, true),
        ContentPlan { stat_rows: 3, tags_shown: false, tag_rows: 0, details: None }
    );
    assert_eq!(
        plan_content(2, 16, 36, 20, true),
        ContentPlan { stat_rows: 4, tags_shown: true, tag_rows: 3, details: None }
    );
    assert_eq!(
        plan_content(2, 32, 36, 0, true),
        ContentPlan { stat_rows: 4, tags_shown: false, tag_rows: 0, details: Some((8, 22)) }
    );
    assert_eq!(
        plan_content(2, 32, 36, 12, false),
        ContentPlan { stat_rows: 4, tags_shown: true, tag_rows: 9, details: None }
    );
}

#[test]
fn tag_colours() {
    assert_eq!(tag_color_index(""), 0);
    assert_eq!(tag_color_index("a"), 1);
    assert_eq!(tag_color_index("ab"), 1);
    assert_eq!(tag_color_index("work"), {
        let mut h: u64 = 0;
        for c in "work".chars() {
            h = h.wrapping_mul(31).wrapping_add(c as u64);
        }
        (h % 8) as usize
    });
}

#[test]
fn list_rows() {
    let mut t = Todo::new_at("buy milk\nand bread", "home", 1);
    assert_eq!(task_row(&t, 40), "[ ] #home buy milk");
    t.pinned = true;
    t.done = true;
    assert_eq!(task_row(&t, 40), "[x] * #home buy milk");
    assert_eq!(task_row(&t, 8), "[x] * #h");
    assert_eq!(task_row(&t, 0), "");
    assert_eq!(row_kind(&t, true, 10), RowKind::Selected);
    assert_eq!(row_kind(&t, false, 10), RowKind::Done);
    t.done = false;
    t.due_date = 5;
    assert_eq!(row_kind(&t, false, 10), RowKind::Overdue);
    assert_eq!(row_kind(&t, false, 5), RowKind::Open);
    assert_eq!(list_top_for(0, 3, 10), 0);
    assert_eq!(list_top_for(0, 12, 10), 3);
    assert_eq!(list_top_for(5, 2, 10), 2);
    assert_eq!(list_top_for(5, 2, 0), 2);
}
