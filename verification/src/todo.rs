//! One task of the list.

use vstd::prelude::*;

verus! {

/// A task: its text, an optional tag (empty for none), whether it is done or
/// pinned, and three instants in seconds since the Unix epoch (0 for unset).
pub struct Todo {
    pub text: String,
    pub tag: String,
    pub done: bool,
    pub pinned: bool,
    pub created_at: u64,
    pub done_at: u64,
    pub due_date: u64,
}

/// The current time in whole seconds since the Unix epoch, read from the
/// system clock (`SystemTime::now`), or 0 where the clock is set before the
/// epoch. Nothing is stated of the value: it depends on the clock.
#[verifier::external_body]
pub fn now_secs() -> u64 {
    std::time::SystemTime::now().duration_since(std::time::UNIX_EPOCH).map(|d| d.as_secs()).unwrap_or(0)
}

impl Todo {
    /// A new open, unpinned task with no due date, created at `now`.
    pub fn new_at(text: &str, tag: &str, now: u64) -> (t: Todo)
        ensures
            t.text@ == text@,
            t.tag@ == tag@,
            !t.done,
            !t.pinned,
            t.created_at == now,
            t.done_at == 0,
            t.due_date == 0,
    {
        Todo {
            text: text.to_owned(),
            tag: tag.to_owned(),
            done: false,
            pinned: false,
            created_at: now,
            done_at: 0,
            due_date: 0,
        }
    }

    /// A new open, unpinned task with no due date, created now.
    pub fn new(text: &str, tag: &str) -> (t: Todo)
        ensures
            t.text@ == text@,
            t.tag@ == tag@,
            !t.done,
            !t.pinned,
            t.done_at == 0,
            t.due_date == 0,
    {
        Todo::new_at(text, tag, now_secs())
    }
}

} // verus!
