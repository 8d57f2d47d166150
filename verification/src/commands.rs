//! The keys the list reacts to and the commands they stand for.

use vstd::prelude::*;

verus! {

/// A key press, as far as the list tells keys apart.
#[derive(Clone, Copy, PartialEq, Eq, Debug)]
pub enum Key {
    Char(char),
    Up,
    Down,
    Home,
    End,
    PageUp,
    PageDown,
    Esc,
    Other,
}

/// What the user asked for.
#[derive(Clone, Copy, PartialEq, Eq, Debug)]
pub enum Command {
    Quit,
    Language,
    Up,
    Down,
    Top,
    Bottom,
    PageUp,
    PageDown,
    NewTask,
    EditTask,
    ToggleDone,
    TogglePin,
    SetTag,
    DeleteTask,
    DeleteAll,
    Search,
    ClearFilters,
    /// Filter by the tag at this position of the statistics (keys 1 to 9).
    FilterTag(usize),
    SetDueDate,
    Help,
    Nothing,
}

/// The command of a character key: the Latin letter, or the Cyrillic letter
/// in the same place of a Russian keyboard.
pub open spec fn char_command(c: char) -> Command {
    if c == 'q' || c == 'й' {
        Command::Quit
    } else if c == 'l' || c == 'L' || c == 'д' || c == 'Д' {
        Command::Language
    } else if c == 'j' || c == 'о' {
        Command::Down
    } else if c == 'k' || c == 'л' {
        Command::Up
    } else if c == 'g' || c == 'п' {
        Command::Top
    } else if c == 'G' || c == 'П' {
        Command::Bottom
    } else if c == 'n' || c == 'т' {
        Command::NewTask
    } else if c == 'e' || c == 'у' {
        Command::EditTask
    } else if c == ' ' {
        Command::ToggleDone
    } else if c == 'p' || c == 'з' {
        Command::TogglePin
    } else if c == 't' || c == 'е' {
        Command::SetTag
    } else if c == 'd' || c == 'в' {
        Command::DeleteTask
    } else if c == 'D' || c == 'В' {
        Command::DeleteAll
    } else if c == '/' || c == '.' {
        Command::Search
    } else if ('1' as int) <= (c as int) && (c as int) <= ('9' as int) {
        Command::FilterTag(((c as int) - ('1' as int)) as usize)
    } else if c == 'M' || c == 'm' || c == 'ь' || c == 'Ь' {
        Command::SetDueDate
    } else if c == 'h' || c == 'р' || c == '?' {
        Command::Help
    } else {
        Command::Nothing
    }
}

/// The command of a key.
pub open spec fn key_command(key: Key) -> Command {
    match key {
        Key::Char(c) => char_command(c),
        Key::Up => Command::Up,
        Key::Down => Command::Down,
        Key::Home => Command::Top,
        Key::End => Command::Bottom,
        Key::PageUp => Command::PageUp,
        Key::PageDown => Command::PageDown,
        Key::Esc => Command::ClearFilters,
        Key::Other => Command::Nothing,
    }
}

/// The command a key stands for.
pub fn key_to_command(key: Key) -> (cmd: Command)
    ensures
        cmd == key_command(key),
{
    match key {
        Key::Char(c) => {
            if c == 'q' || c == 'й' {
                Command::Quit
            } else if c == 'l' || c == 'L' || c == 'д' || c == 'Д' {
                Command::Language
            } else if c == 'j' || c == 'о' {
                Command::Down
            } else if c == 'k' || c == 'л' {
                Command::Up
            } else if c == 'g' || c == 'п' {
                Command::Top
            } else if c == 'G' || c == 'П' {
                Command::Bottom
            } else if c == 'n' || c == 'т' {
                Command::NewTask
            } else if c == 'e' || c == 'у' {
                Command::EditTask
            } else if c == ' ' {
                Command::ToggleDone
            } else if c == 'p' || c == 'з' {
                Command::TogglePin
            } else if c == 't' || c == 'е' {
                Command::SetTag
            } else if c == 'd' || c == 'в' {
                Command::DeleteTask
            } else if c == 'D' || c == 'В' {
                Command::DeleteAll
            } else if c == '/' || c == '.' {
                Command::Search
            } else if '1' <= c && c <= '9' {
                Command::FilterTag((c as u32 - '1' as u32) as usize)
            } else if c == 'M' || c == 'm' || c == 'ь' || c == 'Ь' {
                Command::SetDueDate
            } else if c == 'h' || c == 'р' || c == '?' {
                Command::Help
            } else {
                Command::Nothing
            }
        },
        Key::Up => Command::Up,
        Key::Down => Command::Down,
        Key::Home => Command::Top,
        Key::End => Command::Bottom,
        Key::PageUp => Command::PageUp,
        Key::PageDown => Command::PageDown,
        Key::Esc => Command::ClearFilters,
        Key::Other => Command::Nothing,
    }
}


/// The key bindings of the user guide, Latin and Russian layouts: each key
/// of the table gives its command, the digits 1 to 9 filter by the tag at
/// that place (counted from 0), and a key outside the table gives nothing.
pub proof fn lemma_key_table()
    ensures
        key_command(Key::Char('q')) == Command::Quit,
        key_command(Key::Char('й')) == Command::Quit,
        key_command(Key::Char('l')) == Command::Language,
        key_command(Key::Char('L')) == Command::Language,
        key_command(Key::Char('д')) == Command::Language,
        key_command(Key::Char('Д')) == Command::Language,
        key_command(Key::Char('j')) == Command::Down,
        key_command(Key::Char('о')) == Command::Down,
        key_command(Key::Down) == Command::Down,
        key_command(Key::Char('k')) == Command::Up,
        key_command(Key::Char('л')) == Command::Up,
        key_command(Key::Up) == Command::Up,
        key_command(Key::Char('g')) == Command::Top,
        key_command(Key::Char('п')) == Command::Top,
        key_command(Key::Home) == Command::Top,
        key_command(Key::Char('G')) == Command::Bottom,
        key_command(Key::Char('П')) == Command::Bottom,
        key_command(Key::End) == Command::Bottom,
        key_command(Key::PageDown) == Command::PageDown,
        key_command(Key::PageUp) == Command::PageUp,
        key_command(Key::Char('n')) == Command::NewTask,
        key_command(Key::Char('т')) == Command::NewTask,
        key_command(Key::Char('e')) == Command::EditTask,
        key_command(Key::Char('у')) == Command::EditTask,
        key_command(Key::Char(' ')) == Command::ToggleDone,
        key_command(Key::Char('p')) == Command::TogglePin,
        key_command(Key::Char('з')) == Command::TogglePin,
        key_command(Key::Char('t')) == Command::SetTag,
        key_command(Key::Char('е')) == Command::SetTag,
        key_command(Key::Char('d')) == Command::DeleteTask,
        key_command(Key::Char('в')) == Command::DeleteTask,
        key_command(Key::Char('D')) == Command::DeleteAll,
        key_command(Key::Char('В')) == Command::DeleteAll,
        key_command(Key::Char('/')) == Command::Search,
        key_command(Key::Char('.')) == Command::Search,
        forall|c: char| '1' <= c <= '9' ==> #[trigger] key_command(Key::Char(c)) == Command::FilterTag(((c as int) - ('1' as int)) as usize),
        key_command(Key::Esc) == Command::ClearFilters,
        key_command(Key::Char('M')) == Command::SetDueDate,
        key_command(Key::Char('m')) == Command::SetDueDate,
        key_command(Key::Char('ь')) == Command::SetDueDate,
        key_command(Key::Char('Ь')) == Command::SetDueDate,
        key_command(Key::Char('h')) == Command::Help,
        key_command(Key::Char('р')) == Command::Help,
        key_command(Key::Char('?')) == Command::Help,
        key_command(Key::Char('x')) == Command::Nothing,
        key_command(Key::Char('0')) == Command::Nothing,
        key_command(Key::Other) == Command::Nothing,
{
}
} // verus!
