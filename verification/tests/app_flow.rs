use nyado::app::{Action, App, Ask};
use nyado::commands::Command;
use nyado::i18n::{named_key_str, I18n, Localization, NAMED_COUNT};
use nyado::storage::Storage;
use nyado::todo::Todo;

fn set_named(l: &mut Localization, key: &str, value: &str) {
    let i = (0..NAMED_COUNT).find(|&i| named_key_str(i) == key).unwrap();
    l.named[i] = value.to_string();
}

fn english() -> Localization {
    let mut l = Localization::blank();
    for (k, v) in [
        ("task_added", "Task added"),
        ("task_updated", "Task updated"),
        ("done", "Done!"),
        ("undone", "Undone"),
        ("all_done", "All done"),
        ("deleted", "Deleted"),
        ("all_deleted", "All deleted"),
        ("pinned", "Pinned"),
        ("unpinned", "Unpinned"),
        ("tag_set", "Tag set"),
        ("tag_cleared", "Tag cleared"),
        ("filters_cleared", "Filters cleared"),
    ] {
        l.messages.insert(k, v);
    }
    set_named(&mut l, "due_date_set", "Due:");
    set_named(&mut l, "due_date_cleared", "Due date cleared");
    set_named(&mut l, "due_date_invalid", "Bad date");
    set_named(&mut l, "popup_delete_confirm", "Delete {}?");
    set_named(&mut l, "popup_set_tag_hint_existing", "Tags: ");
    set_named(&mut l, "popup_set_tag_hint_empty", "No tags yet");
    l
}

fn new_app() -> App {
    let i18n = I18n::from_languages(vec![("en".to_string(), english())]).ok().unwrap();
    App::new(Storage::new("todos.txt".to_string()), i18n)
}

fn add(app: &mut App, text: &str, now: u64) {
    assert_eq!(app.handle_command(Command::NewTask, 30, now), Action::Ask(Ask::NewTask));
    assert_eq!(app.answer(Ask::NewTask, Some(text), now), Action::Save);
}

#[test]
fn adding_a_task() {
    let mut app = new_app();
    add(&mut app, "Buy milk", 1000);
    assert_eq!(app.storage.todos.len(), 1);
    assert_eq!(app.storage.todos[0].text, "Buy milk");
    assert_eq!(app.storage.todos[0].created_at, 1000);
    assert!(!app.storage.todos[0].done);
    assert_eq!(app.message, "Task added");
    assert_eq!(app.message_ttl, 5);
    assert_eq!(app.visible, vec![0]);
}

#[test]
fn finishing_the_last_task_celebrates() {
    let mut app = new_app();
    add(&mut app, "Buy milk", 1000);
    assert_eq!(app.handle_command(Command::ToggleDone, 30, 2000), Action::Save);
    assert!(app.storage.todos[0].done);
    assert_eq!(app.storage.todos[0].done_at, 2000);
    assert_eq!(app.celebrate, 10);
    assert_eq!(app.message, "Done!");
    assert_eq!(app.handle_command(Command::ToggleDone, 30, 3000), Action::Save);
    assert!(!app.storage.todos[0].done);
    assert_eq!(app.storage.todos[0].done_at, 0);
    assert_eq!(app.message, "Undone");
}

#[test]
fn done_tasks_sink_and_pinned_rise() {
    let mut app = new_app();
    add(&mut app, "first", 1);
    add(&mut app, "second", 2);
    add(&mut app, "third", 3);
    assert_eq!(app.storage.todos[0].text, "first");
    app.handle_command(Command::ToggleDone, 30, 10);
    let texts: Vec<&str> = app.storage.todos.iter().map(|t| t.text.as_str()).collect();
    assert_eq!(texts, vec!["second", "third", "first"]);
    app.handle_command(Command::Bottom, 30, 10);
    assert_eq!(app.selected, 2);
    app.handle_command(Command::Up, 30, 10);
    assert_eq!(app.handle_command(Command::TogglePin, 30, 10), Action::Save);
    let texts: Vec<&str> = app.storage.todos.iter().map(|t| t.text.as_str()).collect();
    assert_eq!(texts, vec!["third", "second", "first"]);
    assert!(app.storage.todos[0].pinned);
}

#[test]
fn deleting_asks_and_needs_yes() {
    let mut app = new_app();
    add(&mut app, "a", 1);
    add(&mut app, "b", 2);
    assert_eq!(app.handle_command(Command::DeleteTask, 30, 5), Action::Ask(Ask::DeleteTask));
    let req = app.popup_request(Ask::DeleteTask);
    assert_eq!(req.title, "Delete a?");
    assert_eq!(app.answer(Ask::DeleteTask, Some("n"), 5), Action::Nothing);
    assert_eq!(app.storage.todos.len(), 2);
    assert_eq!(app.answer(Ask::DeleteTask, Some("y"), 5), Action::Save);
    assert_eq!(app.storage.todos.len(), 1);
    assert_eq!(app.storage.todos[0].text, "b");
    assert_eq!(app.message, "Deleted");
    assert_eq!(app.answer(Ask::DeleteAll, Some("Y"), 5), Action::Save);
    assert_eq!(app.storage.todos.len(), 0);
    assert_eq!(app.handle_command(Command::DeleteAll, 30, 5), Action::Nothing);
    assert_eq!(app.handle_command(Command::EditTask, 30, 5), Action::Nothing);
}

#[test]
fn tags_filter_the_list() {
    let mut app = new_app();
    add(&mut app, "a", 1);
    add(&mut app, "b", 2);
    assert_eq!(app.handle_command(Command::SetTag, 30, 3), Action::Ask(Ask::SetTag));
    assert_eq!(app.answer(Ask::SetTag, Some(" Work "), 3), Action::Save);
    assert_eq!(app.message, "Tag set");
    assert_eq!(app.storage.tags_available.len(), 1);
    assert_eq!(app.storage.tags_available[0].0, "work");
    assert_eq!(app.storage.tags_available[0].1, 1);
    assert_eq!(app.set_tag_hint(), "Tags: #work");
    app.handle_command(Command::FilterTag(0), 30, 3);
    assert_eq!(app.storage.filter_tag, "work");
    assert_eq!(app.visible.len(), 1);
    app.handle_command(Command::FilterTag(0), 30, 3);
    assert_eq!(app.storage.filter_tag, "");
    assert_eq!(app.visible.len(), 2);
    app.handle_command(Command::FilterTag(5), 30, 3);
    assert_eq!(app.visible.len(), 2);
}

#[test]
fn search_is_case_insensitive() {
    let mut app = new_app();
    add(&mut app, "Buy Milk", 1);
    add(&mut app, "call mom", 2);
    assert_eq!(app.handle_command(Command::Search, 30, 3), Action::Ask(Ask::Search));
    assert_eq!(app.answer(Ask::Search, Some("MILK"), 3), Action::Nothing);
    assert_eq!(app.visible.len(), 1);
    assert_eq!(app.storage.todos[app.visible[0]].text, "Buy Milk");
    app.answer(Ask::Search, None, 3);
    assert_eq!(app.visible.len(), 2);
    app.answer(Ask::Search, Some("mom"), 3);
    assert_eq!(app.visible.len(), 1);
    app.handle_command(Command::ClearFilters, 30, 3);
    assert_eq!(app.visible.len(), 2);
    assert_eq!(app.message, "Filters cleared");
}

#[test]
fn due_dates_are_asked_in_two_steps() {
    let mut app = new_app();
    add(&mut app, "pay rent", 1);
    assert_eq!(app.handle_command(Command::SetDueDate, 30, 5), Action::Ask(Ask::DueDate));
    assert_eq!(app.answer(Ask::DueDate, Some(" 2024-01-15 "), 5), Action::Ask(Ask::DueTime));
    assert_eq!(app.answer(Ask::DueTime, Some("10:30"), 5), Action::Save);
    assert_eq!(app.storage.todos[0].due_date, 1705314600);
    assert_eq!(app.message, "Due: 2024-01-15 10:30");
    assert_eq!(app.answer(Ask::DueDate, Some("2024-01-16"), 5), Action::Ask(Ask::DueTime));
    assert_eq!(app.answer(Ask::DueTime, None, 5), Action::Save);
    assert_eq!(app.storage.todos[0].due_date, 1705363200);
    assert_eq!(app.message, "Due: 2024-01-16");
    assert_eq!(app.answer(Ask::DueDate, Some("2024-02-31"), 5), Action::Ask(Ask::DueTime));
    assert_eq!(app.answer(Ask::DueTime, None, 5), Action::Nothing);
    assert_eq!(app.message, "Bad date");
    assert_eq!(app.storage.todos[0].due_date, 1705363200);
    assert_eq!(app.answer(Ask::DueDate, Some("  "), 5), Action::Save);
    assert_eq!(app.storage.todos[0].due_date, 0);
    assert_eq!(app.message, "Due date cleared");
}

#[test]
fn editing_replaces_the_text() {
    let mut app = new_app();
    add(&mut app, "old", 1);
    assert_eq!(app.handle_command(Command::EditTask, 30, 2), Action::Ask(Ask::EditTask));
    assert_eq!(app.popup_request(Ask::EditTask).initial, "old");
    assert_eq!(app.answer(Ask::EditTask, Some("new"), 2), Action::Save);
    assert_eq!(app.storage.todos[0].text, "new");
    assert_eq!(app.message, "Task updated");
    assert_eq!(app.answer(Ask::EditTask, None, 2), Action::Nothing);
}

#[test]
fn moving_through_the_list() {
    let mut app = new_app();
    for i in 0..10 {
        add(&mut app, &format!("t{}", i), i);
    }
    app.handle_command(Command::PageDown, 10, 20);
    assert_eq!(app.selected, 5);
    app.handle_command(Command::PageDown, 10, 20);
    assert_eq!(app.selected, 9);
    app.handle_command(Command::Down, 10, 20);
    assert_eq!(app.selected, 9);
    app.handle_command(Command::PageUp, 12, 20);
    assert_eq!(app.selected, 2);
    app.handle_command(Command::Top, 12, 20);
    assert_eq!(app.selected, 0);
    app.handle_command(Command::Up, 12, 20);
    assert_eq!(app.selected, 0);
    assert_eq!(app.handle_command(Command::Quit, 12, 20), Action::Quit);
    assert_eq!(app.handle_command(Command::Help, 12, 20), Action::Ask(Ask::Help));
}

#[test]
fn messages_run_out() {
    let mut app = new_app();
    app.set_message("hi");
    for _ in 0..5 {
        app.tick();
        assert_eq!(app.message, "hi");
    }
    app.tick();
    assert_eq!(app.message, "");
    assert_eq!(app.poll_timeout_ms(), 100);
}

#[test]
fn the_list_holds_at_most_2048_tasks() {
    let mut app = new_app();
    for i in 0..2048u64 {
        app.storage.todos.push(Todo::new_at("x", "", i));
    }
    app.rebuild_visible();
    assert_eq!(app.answer(Ask::NewTask, Some("one more"), 1), Action::Nothing);
    assert_eq!(app.storage.todos.len(), 2048);
}
