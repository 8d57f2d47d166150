use nyado::i18n::{lang_file_code, merge_language, named_key_str, I18n, Localization, TextTable, NAMED_COUNT};
use nyado::order::sort_by_rank;
use nyado::storage::{backup_name, backup_shifts, Storage, MAX_BACKUPS};
use nyado::todo::Todo;

fn task(text: &str, tag: &str, done: bool, pinned: bool, due: u64) -> Todo {
    let mut t = Todo::new_at(text, tag, 100);
    t.done = done;
    t.pinned = pinned;
    t.due_date = due;
    t
}

#[test]
fn task_lines_escape_and_read_back() {
    let mut t = Todo::new_at("a|b\nc\\d\te", "x", 100);
    t.done = true;
    t.done_at = 200;
    let line = t.to_line();
    assert_eq!(line, "1|0|100|200|0|x|a\\pb\\nc\\\\d\te\n");
    let back = Todo::from_line(line.trim_end_matches('\n')).unwrap();
    assert_eq!(back.text, t.text);
    assert_eq!(back.tag, "x");
    assert!(back.done && !back.pinned);
    assert_eq!((back.created_at, back.done_at, back.due_date), (100, 200, 0));
}

#[test]
fn malformed_task_lines_are_refused() {
    assert!(Todo::from_line("").is_none());
    assert!(Todo::from_line("1|0|100|200|0|x").is_none());
    assert!(Todo::from_line("2|0|100|200|0|x|y").is_none());
    assert!(Todo::from_line("1|0|1a0|200|0|x|y").is_none());
    assert!(Todo::from_line("1|0||200|0|x|y").is_none());
    assert!(Todo::from_line("1|0|99999999999999999999|200|0|x|y").is_none());
    assert!(Todo::from_line("1|0|1|2|3|x|y\\q").is_none());
    assert!(Todo::from_line("1|0|1|2|3|x|y\\").is_none());
    assert!(Todo::from_line("1|0|1|2|3|x|y|z").is_none());
    let t = Todo::from_line("0|1|18446744073709551615|0|0||plain").unwrap();
    assert_eq!(t.created_at, u64::MAX);
    assert!(t.pinned);
    assert_eq!(t.tag, "");
}

#[test]
fn saving_then_loading_gives_the_tasks_back() {
    let mut s = Storage::new("todos.txt".to_string());
    s.todos.push(task("first\nsecond line", "home", false, true, 0));
    s.todos.push(task("with\r return", "", true, false, 12345));
    let text = s.file_text();
    let lines: Vec<String> = text.lines().map(|l| l.to_string()).collect();
    assert_eq!(lines.len(), 2);
    let mut t = Storage::new("todos.txt".to_string());
    t.dirty_tags = false;
    t.load_lines(&lines);
    assert!(t.dirty_tags);
    assert_eq!(t.todos.len(), 2);
    for (a, b) in s.todos.iter().zip(t.todos.iter()) {
        assert_eq!(a.text, b.text);
        assert_eq!(a.tag, b.tag);
        assert_eq!((a.done, a.pinned, a.created_at, a.done_at, a.due_date), (b.done, b.pinned, b.created_at, b.done_at, b.due_date));
    }
    let mut with_junk = vec!["not a task".to_string()];
    with_junk.extend(lines);
    t.load_lines(&with_junk);
    assert_eq!(t.todos.len(), 2);
    t.load_lines(&Vec::new());
    assert_eq!(t.todos.len(), 0);
}

#[test]
fn backups_are_named_and_shifted() {
    assert_eq!(backup_name("todos", "txt", 0), "todos.txt.bak.0");
    assert_eq!(backup_name("todos", "", 2), "todos.bak.2");
    assert_eq!(MAX_BACKUPS, 5);
    assert_eq!(backup_shifts(), vec![(3, 4), (2, 3), (1, 2), (0, 1)]);
}

#[test]
fn counts_and_tag_statistics() {
    let mut s = Storage::new("x".to_string());
    s.todos.push(task("a", "work", false, true, 0));
    s.todos.push(task("b", "home", true, false, 0));
    s.todos.push(task("c", "work", false, false, 0));
    s.todos.push(task("d", "", true, true, 0));
    assert_eq!(s.pending_count(), 2);
    assert_eq!(s.done_count(), 2);
    assert_eq!(s.pinned_count(), 2);
    s.rebuild_tags();
    assert!(!s.dirty_tags);
    assert_eq!(s.tags_available.len(), 2);
    assert_eq!(s.tags_available[0], ("work".to_string(), 2));
    assert_eq!(s.tags_available[1], ("home".to_string(), 1));
    s.tags_available.clear();
    s.rebuild_tags();
    assert!(s.tags_available.is_empty());
}

#[test]
fn list_order_pinned_open_overdue_due() {
    let mut v = vec![
        task("done", "", true, false, 0),
        task("plain", "", false, false, 0),
        task("later", "", false, false, 5000),
        task("soon", "", false, false, 3000),
        task("overdue", "", false, false, 500),
        task("pinned done", "", true, true, 0),
        task("plain2", "", false, false, 0),
    ];
    sort_by_rank(&mut v, 1000);
    let order: Vec<&str> = v.iter().map(|t| t.text.as_str()).collect();
    assert_eq!(order, vec!["pinned done", "overdue", "soon", "later", "plain", "plain2", "done"]);
    let before: Vec<String> = v.iter().map(|t| t.text.clone()).collect();
    sort_by_rank(&mut v, 1000);
    let after: Vec<String> = v.iter().map(|t| t.text.clone()).collect();
    assert_eq!(before, after);
}

fn loc_with(message: &str, named_title: &str) -> Localization {
    let mut l = Localization::blank();
    if !message.is_empty() {
        l.messages.insert("hello", message);
    }
    let i = (0..NAMED_COUNT).find(|&i| named_key_str(i) == "title").unwrap();
    l.named[i] = named_title.to_string();
    l
}

#[test]
fn text_tables_read_what_was_written() {
    let mut t = TextTable::new();
    assert!(t.is_empty());
    t.insert("a", "1");
    t.insert("b", "2");
    t.insert("a", "3");
    assert_eq!(t.get("a"), Some("3"));
    assert_eq!(t.get("b"), Some("2"));
    assert_eq!(t.get("c"), None);
}

#[test]
fn languages_fall_back_to_english() {
    let mut en = loc_with("Hello", "nyado");
    en.ui.insert("greeting", "Hi");
    en.pending.insert("prefix", "Pending");
    let ru = loc_with("", "");
    let de = loc_with("Hallo", "Aufgaben");
    let mut i18n = I18n::from_languages(vec![
        ("ru".to_string(), ru),
        ("en".to_string(), en),
        ("de".to_string(), de),
    ])
    .ok()
    .unwrap();
    assert_eq!(i18n.current_code(), "en");
    assert_eq!(i18n.get("messages.hello"), "Hello");
    assert_eq!(i18n.get("greeting"), "Hi");
    assert_eq!(i18n.get("pending.prefix"), "Pending");
    assert_eq!(i18n.get("title"), "nyado");
    assert_eq!(i18n.get("no.such.key"), "???");
    i18n.toggle_language();
    assert_eq!(i18n.current_code(), "de");
    assert_eq!(i18n.get("messages.hello"), "Hallo");
    assert_eq!(i18n.get("title"), "Aufgaben");
    i18n.toggle_language();
    assert_eq!(i18n.current_code(), "ru");
    assert_eq!(i18n.get("messages.hello"), "Hello");
    assert_eq!(i18n.get("title"), "nyado");
    i18n.toggle_language();
    assert_eq!(i18n.current_code(), "en");
    assert!(i18n.set_language_by_code("ru"));
    assert_eq!(i18n.current_code(), "ru");
    assert!(!i18n.set_language_by_code("fr"));
    assert_eq!(i18n.current_code(), "ru");
}

#[test]
fn english_is_required() {
    assert!(I18n::from_languages(vec![("de".to_string(), Localization::blank())]).is_err());
    assert!(I18n::from_languages(Vec::new()).is_err());
}

#[test]
fn filling_a_language_twice_changes_nothing() {
    let en = loc_with("Hello", "nyado");
    let mut ru = loc_with("", "");
    ru.fill_missing(&en);
    assert_eq!(ru.messages.get("hello"), Some("Hello"));
    let once: Vec<String> = ru.named.clone();
    ru.fill_missing(&en);
    assert_eq!(ru.named, once);
}

#[test]
fn language_files_are_recognised() {
    assert_eq!(lang_file_code("lang_ru.toml"), Some("ru".to_string()));
    assert_eq!(lang_file_code("lang_.toml"), Some("".to_string()));
    assert_eq!(lang_file_code("lang.toml"), None);
    assert_eq!(lang_file_code("lang_ru.tom"), None);
    assert_eq!(lang_file_code("xlang_ru.toml"), None);
}

#[test]
fn loading_the_saved_text_gives_the_tasks_back() {
    let mut s = Storage::new("todos.txt".to_string());
    s.todos.push(task("a|b", "x|y", false, false, 7));
    s.todos.push(task("line\nbreak", "", true, true, 0));
    let text = s.file_text();
    assert_eq!(text, "0|0|100|0|7|x\\py|a\\pb\n1|1|100|0|0||line\\nbreak\n");
    let mut t = Storage::new("todos.txt".to_string());
    t.dirty_tags = false;
    t.load_text(&text);
    assert!(t.dirty_tags);
    assert_eq!(t.todos.len(), 2);
    assert_eq!(t.todos[0].text, "a|b");
    assert_eq!(t.todos[0].tag, "x|y");
    assert_eq!(t.todos[1].text, "line\nbreak");
    assert!(t.todos[1].pinned && t.todos[1].done);
    t.load_text("");
    assert!(t.todos.is_empty());
}

#[test]
fn the_chosen_language_is_restored() {
    let mut i18n = I18n::from_languages(vec![
        ("en".to_string(), loc_with("Hello", "nyado")),
        ("ru".to_string(), loc_with("Privet", "nyado")),
    ])
    .ok()
    .unwrap();
    let saved = "ru".to_string();
    assert!(i18n.restore_language(&format!("{}\n", saved)));
    assert_eq!(i18n.current_code(), "ru");
    assert!(!i18n.restore_language("fr"));
    assert_eq!(i18n.current_code(), "ru");
    assert!(i18n.restore_language(" en "));
    assert_eq!(i18n.current_code(), "en");
}

#[test]
fn a_later_language_file_wins() {
    let mut all: Vec<(String, Localization)> = Vec::new();
    merge_language(&mut all, "en".to_string(), loc_with("Old", "x"));
    merge_language(&mut all, "de".to_string(), loc_with("Hallo", "x"));
    merge_language(&mut all, "en".to_string(), loc_with("New", "x"));
    assert_eq!(all.len(), 2);
    assert_eq!(all[0].0, "en");
    assert_eq!(all[0].1.messages.get("hello"), Some("New"));
    assert_eq!(all[1].0, "de");
}
