use nyado::commands::{key_to_command, Command, Key};
use nyado::datetime::parse_datetime;

#[test]
fn due_dates_read_as_utc_timestamps() {
    assert_eq!(parse_datetime("2024-01-15", "10:30"), Some(1705314600));
    assert_eq!(parse_datetime("1970-01-01", ""), Some(0));
    assert_eq!(parse_datetime("2024-1-5", ""), Some(1704412800));
    assert_eq!(parse_datetime("+2024-01-15", ""), Some(1705276800));
    assert_eq!(parse_datetime("2000-02-29", "23:59"), Some(951868740));
}

#[test]
fn malformed_due_dates_are_refused() {
    assert_eq!(parse_datetime("2024-02-30", ""), None);
    assert_eq!(parse_datetime("2023-02-29", ""), None);
    assert_eq!(parse_datetime("2024-01-15", "24:00"), None);
    assert_eq!(parse_datetime("2024-01-15", "10:60"), None);
    assert_eq!(parse_datetime("2024-01-15", "10:30:00"), None);
    assert_eq!(parse_datetime("2024/01/15", ""), None);
    assert_eq!(parse_datetime("2024-01", ""), None);
    assert_eq!(parse_datetime("abc-01-15", ""), None);
    assert_eq!(parse_datetime("2024-13-01", ""), None);
}

#[test]
fn keys_map_to_commands() {
    assert_eq!(key_to_command(Key::Char('q')), Command::Quit);
    assert_eq!(key_to_command(Key::Char('й')), Command::Quit);
    assert_eq!(key_to_command(Key::Char('L')), Command::Language);
    assert_eq!(key_to_command(Key::Char('j')), Command::Down);
    assert_eq!(key_to_command(Key::Down), Command::Down);
    assert_eq!(key_to_command(Key::Char('k')), Command::Up);
    assert_eq!(key_to_command(Key::Home), Command::Top);
    assert_eq!(key_to_command(Key::Char('G')), Command::Bottom);
    assert_eq!(key_to_command(Key::Char(' ')), Command::ToggleDone);
    assert_eq!(key_to_command(Key::Char('D')), Command::DeleteAll);
    assert_eq!(key_to_command(Key::Char('d')), Command::DeleteTask);
    assert_eq!(key_to_command(Key::Char('/')), Command::Search);
    assert_eq!(key_to_command(Key::Char('3')), Command::FilterTag(2));
    assert_eq!(key_to_command(Key::Char('1')), Command::FilterTag(0));
    assert_eq!(key_to_command(Key::Char('ь')), Command::SetDueDate);
    assert_eq!(key_to_command(Key::Esc), Command::ClearFilters);
    assert_eq!(key_to_command(Key::Char('x')), Command::Nothing);
    assert_eq!(key_to_command(Key::Char('0')), Command::Nothing);
    assert_eq!(key_to_command(Key::Other), Command::Nothing);
}
