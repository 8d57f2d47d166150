//! The application state and what each command does to it.

use vstd::prelude::*;
use crate::i18n::{I18n, text_for};
use crate::order::{sort_by_rank, stably_sorted_from, lemma_sorted_stays};
use crate::storage::{Storage, count_pending};
use crate::text::{chars_of, contains_chars, occurs_in, str_lower, to_lowercase, clean_tag, clean_tag_str, same_text, trimmed, trim_str};
use crate::storage::tag_stats_of;
use crate::datetime::{parse_datetime, due_timestamp};
use crate::popup::PopupMode;
use crate::commands::Command;
use crate::text::{fill_braces, fill_placeholder, decimal, decimal_string};
use vstd::string::*;
use crate::todo::{Todo, now_secs};

verus! {

/// The most tasks the list takes.
pub const MAX_TODOS: usize = 2048;

/// Whether task `t` passes the tag filter and the search (both ignored when empty).
pub open spec fn matches_filter(t: Todo, filter_tag: Seq<char>, search: Seq<char>) -> bool {
    &&& (filter_tag.len() == 0 || t.tag@ == filter_tag)
    &&& (search.len() == 0 || occurs_in(str_lower(search), str_lower(t.text@)))
}

/// The positions of the tasks of `todos` that pass the filter and the search, in order.
pub open spec fn visible_indices(todos: Seq<Todo>, filter_tag: Seq<char>, search: Seq<char>) -> Seq<usize>
    decreases todos.len(),
{
    if todos.len() == 0 {
        Seq::empty()
    } else if matches_filter(todos.last(), filter_tag, search) {
        visible_indices(todos.drop_last(), filter_tag, search).push((todos.len() - 1) as usize)
    } else {
        visible_indices(todos.drop_last(), filter_tag, search)
    }
}

/// Every listed position is a position of the list, and they only grow.
pub proof fn lemma_visible_indices_bounded(todos: Seq<Todo>, filter_tag: Seq<char>, search: Seq<char>)
    requires
        todos.len() <= usize::MAX,
    ensures
        visible_indices(todos, filter_tag, search).len() <= todos.len(),
        forall|k: int| 0 <= k < visible_indices(todos, filter_tag, search).len() ==>
            (#[trigger] visible_indices(todos, filter_tag, search)[k]) < todos.len(),
        forall|a: int, b: int| 0 <= a < b < visible_indices(todos, filter_tag, search).len() ==>
            visible_indices(todos, filter_tag, search)[a] < visible_indices(todos, filter_tag, search)[b],
    decreases todos.len(),
{
    if todos.len() > 0 {
        let d = todos.drop_last();
        lemma_visible_indices_bounded(d, filter_tag, search);
        let prev = visible_indices(d, filter_tag, search);
        let cur = visible_indices(todos, filter_tag, search);
        if matches_filter(todos.last(), filter_tag, search) {
            assert(cur == prev.push((todos.len() - 1) as usize));
            assert(cur[cur.len() - 1] == todos.len() - 1);
            assert forall|a: int, b: int| 0 <= a < b < cur.len() implies cur[a] < cur[b] by {
                if b == cur.len() - 1 {
                    assert(prev[a] < d.len());
                } else {
                    assert(prev[a] < prev[b]);
                }
            }
        }
    }
}

/// Whether the tasks at the positions `vis` of `todos` carry the tag
/// `filter_tag` when it is set and, ignoring case, hold `search` in their
/// text when it is set.
pub open spec fn all_shown_pass(vis: Seq<usize>, todos: Seq<Todo>, filter_tag: Seq<char>, search: Seq<char>) -> bool {
    &&& forall|k: int| 0 <= k < vis.len() && filter_tag.len() > 0 ==> (#[trigger] todos[vis[k] as int]).tag@ == filter_tag
    &&& forall|k: int| 0 <= k < vis.len() && search.len() > 0 ==> occurs_in(str_lower(search), str_lower((#[trigger] todos[vis[k] as int]).text@))
}

/// The tag filter and the search both apply: every task shown carries the
/// filter tag when one is set, whatever the search, and holds the search
/// (ignoring case) when one is set, whatever the filter; and every task that
/// does both is shown.
pub proof fn lemma_visible_exact(todos: Seq<Todo>, filter_tag: Seq<char>, search: Seq<char>)
    requires
        todos.len() <= usize::MAX,
    ensures
        all_shown_pass(visible_indices(todos, filter_tag, search), todos, filter_tag, search),
        forall|i: int| 0 <= i < todos.len()
            && (filter_tag.len() == 0 || (#[trigger] todos[i]).tag@ == filter_tag)
            && (search.len() == 0 || occurs_in(str_lower(search), str_lower(todos[i].text@)))
            ==> exists|k: int| 0 <= k < visible_indices(todos, filter_tag, search).len()
                && visible_indices(todos, filter_tag, search)[k] == i,
    decreases todos.len(),
{
    lemma_visible_indices_bounded(todos, filter_tag, search);
    if todos.len() > 0 {
        let d = todos.drop_last();
        lemma_visible_exact(d, filter_tag, search);
        lemma_visible_indices_bounded(d, filter_tag, search);
        let prev = visible_indices(d, filter_tag, search);
        let cur = visible_indices(todos, filter_tag, search);
        let n = todos.len() - 1;
        assert forall|k: int| 0 <= k < prev.len() implies todos[prev[k] as int] == d[prev[k] as int] by {
            assert(prev[k] < d.len());
        }
        if matches_filter(todos.last(), filter_tag, search) {
            assert(cur == prev.push(n as usize));
            assert(todos[n] == todos.last());
        } else {
            assert(cur == prev);
        }
        assert forall|k: int| 0 <= k < cur.len() && filter_tag.len() > 0 implies (#[trigger] todos[cur[k] as int]).tag@ == filter_tag by {
            if k < prev.len() {
                assert(cur[k] == prev[k]);
                assert(d[prev[k] as int].tag@ == filter_tag);
            }
        }
        assert forall|k: int| 0 <= k < cur.len() && search.len() > 0 implies occurs_in(str_lower(search), str_lower((#[trigger] todos[cur[k] as int]).text@)) by {
            if k < prev.len() {
                assert(cur[k] == prev[k]);
                assert(occurs_in(str_lower(search), str_lower(d[prev[k] as int].text@)));
            }
        }
        assert forall|i: int| 0 <= i < todos.len()
            && (filter_tag.len() == 0 || (#[trigger] todos[i]).tag@ == filter_tag)
            && (search.len() == 0 || occurs_in(str_lower(search), str_lower(todos[i].text@)))
            implies exists|k: int| 0 <= k < cur.len() && cur[k] == i by {
            if i < n {
                assert(todos[i] == d[i]);
                let k = choose|k: int| 0 <= k < prev.len() && prev[k] == i;
                assert(cur[k] == i);
            } else {
                assert(todos[i] == todos.last());
                assert(cur[cur.len() - 1] == i);
            }
        }
    }
}

/// Where the selection stays after the list of shown tasks changed to `len` entries.
pub open spec fn clamp_selection(selected: usize, len: nat) -> usize {
    if selected >= len {
        if len == 0 { 0 } else { (len - 1) as usize }
    } else {
        selected
    }
}

/// The application: the task store, the tasks shown, the selection, the
/// languages, and the transient message and celebration.
pub struct App {
    pub storage: Storage,
    pub visible: Vec<usize>,
    pub selected: usize,
    pub list_top: usize,
    pub i18n: I18n,
    pub message: String,
    pub message_ttl: u8,
    pub celebrate: u8,
    /// A due date typed in and waiting for its time of day.
    pub pending_due: String,
}

impl App {
    /// The shown tasks are exactly those that pass the filter and the search,
    /// the selection lies on one of them (or is 0 when none is shown), and the
    /// languages are usable.
    pub open spec fn wf(&self) -> bool {
        &&& self.i18n.wf()
        &&& self.visible@ == visible_indices(self.storage.todos@, self.storage.filter_tag@, self.storage.search@)
        &&& (self.selected < self.visible@.len() || (self.visible@.len() == 0 && self.selected == 0))
    }

    /// The position in the task list of the selected task.
    pub open spec fn selected_index(&self) -> int {
        self.visible@[self.selected as int] as int
    }

    /// The text shown for `key` in the current language.
    pub open spec fn text(&self, key: Seq<char>) -> Seq<char> {
        text_for(self.i18n, key)
    }

    /// Recomputes which tasks are shown, keeps the selection on the list, and
    /// marks the tag statistics as due.
    pub fn rebuild_visible(&mut self)
        ensures
            final(self).visible@ == visible_indices(old(self).storage.todos@, old(self).storage.filter_tag@, old(self).storage.search@),
            final(self).selected == clamp_selection(old(self).selected, final(self).visible@.len()),
            final(self).storage.dirty_tags,
            final(self).storage.todos@ == old(self).storage.todos@,
            final(self).storage.search@ == old(self).storage.search@,
            final(self).storage.filter_tag@ == old(self).storage.filter_tag@,
            final(self).storage.tags_available@ == old(self).storage.tags_available@,
            final(self).storage.path@ == old(self).storage.path@,
            final(self).i18n == old(self).i18n,
            final(self).message@ == old(self).message@,
            final(self).message_ttl == old(self).message_ttl,
            final(self).celebrate == old(self).celebrate,
            final(self).list_top == old(self).list_top,
            final(self).pending_due@ == old(self).pending_due@,
    {
        let ghost todos = self.storage.todos@;
        let ghost f = self.storage.filter_tag@;
        let ghost q = self.storage.search@;
        self.visible.clear();
        let search_lower = to_lowercase(self.storage.search.as_str());
        let needle = chars_of(search_lower.as_str());
        let filter_empty = self.storage.filter_tag.as_str().is_empty();
        let search_empty = self.storage.search.as_str().is_empty();
        let n = self.storage.todos.len();
        let mut idx: usize = 0;
        while idx < n
            invariant
                idx <= n,
                n == todos.len(),
                self.storage.todos@ == todos,
                self.storage.filter_tag@ == f,
                self.storage.search@ == q,
                needle@ == str_lower(q),
                filter_empty == (f.len() == 0),
                search_empty == (q.len() == 0),
                self.visible@ == visible_indices(todos.take(idx as int), f, q),
                self.selected == old(self).selected,
                self.storage.dirty_tags == old(self).storage.dirty_tags,
                self.storage.tags_available@ == old(self).storage.tags_available@,
                self.storage.path@ == old(self).storage.path@,
                self.i18n == old(self).i18n,
                self.message@ == old(self).message@,
                self.message_ttl == old(self).message_ttl,
                self.celebrate == old(self).celebrate,
                self.list_top == old(self).list_top,
                self.pending_due@ == old(self).pending_due@,
            decreases n - idx,
        {
            let ghost prefix = todos.take(idx + 1);
            assert(prefix.drop_last() =~= todos.take(idx as int));
            assert(prefix.last() == todos[idx as int]);
            let tag_ok = filter_empty || self.storage.todos[idx].tag == self.storage.filter_tag;
            let mut keep = tag_ok;
            if tag_ok && !search_empty {
                let lowered = to_lowercase(self.storage.todos[idx].text.as_str());
                let hay = chars_of(lowered.as_str());
                keep = contains_chars(&hay, &needle);
            }
            assert(keep == matches_filter(todos[idx as int], f, q));
            if keep {
                self.visible.push(idx);
            }
            idx = idx + 1;
        }
        assert(todos.take(n as int) =~= todos);
        if self.selected >= self.visible.len() {
            self.selected = if self.visible.len() == 0 { 0 } else { self.visible.len() - 1 };
        }
        self.storage.dirty_tags = true;
    }

    /// The application over `storage` and `i18n`, nothing selected but the first task.
    pub fn new(storage: Storage, i18n: I18n) -> (app: App)
        requires
            i18n.wf(),
        ensures
            app.wf(),
            app.storage.todos@ == storage.todos@,
            app.storage.search@ == storage.search@,
            app.storage.filter_tag@ == storage.filter_tag@,
            app.storage.tags_available@ == storage.tags_available@,
            app.storage.dirty_tags,
            app.storage.path@ == storage.path@,
            app.i18n == i18n,
            app.pending_due@.len() == 0,
            app.selected == 0,
            app.list_top == 0,
            app.message@.len() == 0,
            app.message_ttl == 0,
            app.celebrate == 0,
    {
        let mut app = App {
            storage,
            selected: 0,
            visible: Vec::new(),
            list_top: 0,
            i18n,
            message: String::new(),
            message_ttl: 0,
            celebrate: 0,
            pending_due: String::new(),
        };
        app.rebuild_visible();
        app
    }

    /// Shows `msg` in the status bar for the next five ticks.
    pub fn set_message(&mut self, msg: &str)
        ensures
            final(self).message@ == msg@,
            final(self).message_ttl == 5,
            final(self).storage == old(self).storage,
            final(self).visible == old(self).visible,
            final(self).selected == old(self).selected,
            final(self).list_top == old(self).list_top,
            final(self).i18n == old(self).i18n,
            final(self).celebrate == old(self).celebrate,
            final(self).pending_due == old(self).pending_due,
    {
        self.message = msg.to_owned();
        self.message_ttl = 5;
    }

    /// One step of time: the celebration and the message run down; a message
    /// whose time is up is cleared.
    pub fn tick(&mut self)
        ensures
            final(self).celebrate == if old(self).celebrate > 0 { (old(self).celebrate - 1) as u8 } else { 0u8 },
            old(self).message_ttl > 0 ==> final(self).message_ttl == old(self).message_ttl - 1
                && final(self).message@ == old(self).message@,
            old(self).message_ttl == 0 ==> final(self).message_ttl == 0 && final(self).message@.len() == 0,
            final(self).message@ == message_after(old(self).message@, old(self).message_ttl, 1).0,
            final(self).message_ttl == message_after(old(self).message@, old(self).message_ttl, 1).1,
            final(self).storage == old(self).storage,
            final(self).visible == old(self).visible,
            final(self).selected == old(self).selected,
            final(self).list_top == old(self).list_top,
            final(self).i18n == old(self).i18n,
            final(self).pending_due == old(self).pending_due,
    {
        if self.celebrate > 0 {
            self.celebrate -= 1;
        }
        let ghost m0 = self.message@;
        let ghost t0 = self.message_ttl;
        if self.message_ttl > 0 {
            self.message_ttl -= 1;
        } else {
            self.message = String::new();
        }
        proof {
            let p = message_after(m0, t0, 0);
            assert(p.0 == m0 && p.1 == t0);
            assert(message_after(m0, t0, 1) == (if p.1 > 0 { (p.0, (p.1 - 1) as u8) } else { (Seq::<char>::empty(), 0u8) }));
        }
    }

    /// How long to wait for a key before the next tick, in milliseconds:
    /// longer while celebrating.
    pub fn poll_timeout_ms(&self) -> (ms: u64)
        ensures
            ms == if self.celebrate > 0 { 150u64 } else { 100u64 },
    {
        if self.celebrate > 0 { 150 } else { 100 }
    }
}

/// The selection after moving up one task.
pub open spec fn sel_up(s: usize) -> usize {
    if s > 0 { (s - 1) as usize } else { 0 }
}

/// The selection after moving down one task in a list of `len` shown tasks.
pub open spec fn sel_down(s: usize, len: nat) -> usize {
    if s + 1 < len { (s + 1) as usize } else { s }
}

/// The selection on the last of `len` shown tasks.
pub open spec fn sel_bottom(len: nat) -> usize {
    if len > 0 { (len - 1) as usize } else { 0 }
}

/// Rows a page moves on a screen `height` rows high.
pub open spec fn page_step(height: u16) -> int {
    if height >= 5 { height - 5 } else { 0 }
}

/// The selection after moving up one page.
pub open spec fn sel_page_up(s: usize, height: u16) -> usize {
    if s >= page_step(height) { (s - page_step(height)) as usize } else { 0 }
}

/// The selection after moving down one page in a list of `len` shown tasks.
pub open spec fn sel_page_down(s: usize, len: nat, height: u16) -> usize {
    let last: int = if len > 0 { len - 1 } else { 0 };
    if s + page_step(height) <= last { (s + page_step(height)) as usize } else { last as usize }
}

/// Task `t` with its done flag flipped: done now at `now`, or open again with no done time.
pub open spec fn toggled_done(t: Todo, now: u64) -> Todo {
    Todo { done: !t.done, done_at: if !t.done { now } else { 0 }, ..t }
}

/// Task `t` with its pin flipped.
pub open spec fn toggled_pin(t: Todo) -> Todo {
    Todo { pinned: !t.pinned, ..t }
}

/// The celebration after the tasks became `todos`: ten ticks when every task
/// of a non-empty list is done, otherwise unchanged from `before`.
pub open spec fn celebration_after(todos: Seq<Todo>, before: u8) -> u8 {
    if count_pending(todos) == 0 && todos.len() > 0 { 10 } else { before }
}

impl App {
    /// Moves the selection one task up, if it is not on the first.
    pub fn cmd_up(&mut self)
        requires
            old(self).wf(),
        ensures
            final(self).wf(),
            final(self).selected == sel_up(old(self).selected),
            *final(self) == (App { selected: final(self).selected, ..*old(self) }),
    {
        if self.selected > 0 {
            self.selected -= 1;
        }
    }

    /// Moves the selection one task down, if it is not on the last.
    pub fn cmd_down(&mut self)
        requires
            old(self).wf(),
        ensures
            final(self).wf(),
            final(self).selected == sel_down(old(self).selected, old(self).visible@.len()),
            *final(self) == (App { selected: final(self).selected, ..*old(self) }),
    {
        let n = self.visible.len();
        if self.selected + 1 < n {
            self.selected += 1;
        }
    }

    /// Selects the first task.
    pub fn cmd_top(&mut self)
        requires
            old(self).wf(),
        ensures
            final(self).wf(),
            final(self).selected == 0,
            *final(self) == (App { selected: 0, ..*old(self) }),
    {
        self.selected = 0;
    }

    /// Selects the last task.
    pub fn cmd_bottom(&mut self)
        requires
            old(self).wf(),
        ensures
            final(self).wf(),
            final(self).selected == sel_bottom(old(self).visible@.len()),
            *final(self) == (App { selected: final(self).selected, ..*old(self) }),
    {
        self.selected = self.visible.len().saturating_sub(1);
    }

    /// Moves the selection up by a screen of `height` rows less five.
    pub fn cmd_page_up(&mut self, height: u16)
        requires
            old(self).wf(),
        ensures
            final(self).wf(),
            final(self).selected == sel_page_up(old(self).selected, height),
            *final(self) == (App { selected: final(self).selected, ..*old(self) }),
    {
        let step = (height as usize).saturating_sub(5);
        self.selected = self.selected.saturating_sub(step);
    }

    /// Moves the selection down by a screen of `height` rows less five, stopping at the last task.
    pub fn cmd_page_down(&mut self, height: u16)
        requires
            old(self).wf(),
        ensures
            final(self).wf(),
            final(self).selected == sel_page_down(old(self).selected, old(self).visible@.len(), height),
            *final(self) == (App { selected: final(self).selected, ..*old(self) }),
    {
        let step = (height as usize).saturating_sub(5);
        let last = self.visible.len().saturating_sub(1);
        if step <= last - self.selected {
            self.selected = self.selected + step;
        } else {
            self.selected = last;
        }
    }

    /// Puts the tasks in list order at time `now` and recomputes what is shown.
    pub fn sort_todos_at(&mut self, now: u64)
        requires
            old(self).i18n.wf(),
        ensures
            final(self).wf(),
            stably_sorted_from(final(self).storage.todos@, old(self).storage.todos@, now),
            final(self).storage.todos@.to_multiset() == old(self).storage.todos@.to_multiset(),
            final(self).selected == clamp_selection(old(self).selected, final(self).visible@.len()),
            final(self).storage.dirty_tags,
            final(self).storage.search@ == old(self).storage.search@,
            final(self).storage.filter_tag@ == old(self).storage.filter_tag@,
            final(self).storage.tags_available@ == old(self).storage.tags_available@,
            final(self).storage.path@ == old(self).storage.path@,
            final(self).i18n == old(self).i18n,
            final(self).message@ == old(self).message@,
            final(self).message_ttl == old(self).message_ttl,
            final(self).celebrate == old(self).celebrate,
            final(self).list_top == old(self).list_top,
            final(self).pending_due@ == old(self).pending_due@,
    {
        sort_by_rank(&mut self.storage.todos, now);
        self.storage.dirty_tags = true;
        self.rebuild_visible();
        let _n = self.storage.todos.len();
        proof {
            lemma_visible_indices_bounded(self.storage.todos@, self.storage.filter_tag@, self.storage.search@);
        }
    }

    /// Puts the tasks in list order at the current time and recomputes what is shown.
    pub fn sort_todos(&mut self)
        requires
            old(self).i18n.wf(),
        ensures
            final(self).wf(),
            exists|now: u64| stably_sorted_from(final(self).storage.todos@, old(self).storage.todos@, now),
            final(self).storage.todos@.to_multiset() == old(self).storage.todos@.to_multiset(),
            final(self).selected == clamp_selection(old(self).selected, final(self).visible@.len()),
            final(self).storage.dirty_tags,
            final(self).storage.search@ == old(self).storage.search@,
            final(self).storage.filter_tag@ == old(self).storage.filter_tag@,
            final(self).storage.tags_available@ == old(self).storage.tags_available@,
            final(self).storage.path@ == old(self).storage.path@,
            final(self).i18n == old(self).i18n,
            final(self).message@ == old(self).message@,
            final(self).message_ttl == old(self).message_ttl,
            final(self).celebrate == old(self).celebrate,
            final(self).list_top == old(self).list_top,
            final(self).pending_due@ == old(self).pending_due@,
    {
        let now = now_secs();
        self.sort_todos_at(now);
    }

    /// Starts the celebration and says so when every task of a non-empty list is done.
    pub fn check_all_done(&mut self)
        requires
            old(self).wf(),
        ensures
            final(self).wf(),
            final(self).celebrate == celebration_after(old(self).storage.todos@, old(self).celebrate),
            count_pending(old(self).storage.todos@) == 0 && old(self).storage.todos@.len() > 0 ==>
                final(self).message@ == old(self).text("messages.all_done"@) && final(self).message_ttl == 5,
            !(count_pending(old(self).storage.todos@) == 0 && old(self).storage.todos@.len() > 0) ==>
                *final(self) == *old(self),
            final(self).storage == old(self).storage,
            final(self).visible == old(self).visible,
            final(self).selected == old(self).selected,
            final(self).list_top == old(self).list_top,
            final(self).pending_due == old(self).pending_due,
            final(self).i18n == old(self).i18n,
    {
        if self.storage.pending_count() == 0 && self.storage.todos.len() > 0 {
            self.celebrate = 10;
            let msg = self.i18n.get("messages.all_done").to_owned();
            self.set_message(msg.as_str());
        }
    }

    /// Flips the selected task between done and open (stamping when it got
    /// done), puts the list back in order at `now` and says what happened.
    /// Returns whether there was a task to flip, that is, whether the tasks
    /// changed and are to be saved.
    pub fn cmd_toggle_done(&mut self, now: u64) -> (changed: bool)
        requires
            old(self).wf(),
        ensures
            final(self).wf(),
            changed == (old(self).visible@.len() > 0),
            !changed ==> *final(self) == *old(self),
            changed ==> {
                let idx = old(self).selected_index();
                let t = old(self).storage.todos@[idx];
                &&& stably_sorted_from(final(self).storage.todos@, old(self).storage.todos@.update(idx, toggled_done(t, now)), now)
                &&& final(self).message@ == old(self).text(if !t.done { "messages.done"@ } else { "messages.undone"@ })
                &&& final(self).message_ttl == 5
                &&& final(self).celebrate == celebration_after(final(self).storage.todos@, old(self).celebrate)
                &&& final(self).selected == clamp_selection(old(self).selected, final(self).visible@.len())
                &&& final(self).storage.search@ == old(self).storage.search@
                &&& final(self).storage.filter_tag@ == old(self).storage.filter_tag@
                &&& final(self).i18n == old(self).i18n
            },
    {
        if self.visible.len() == 0 {
            return false;
        }
        let _n = self.storage.todos.len();
        proof {
            lemma_visible_indices_bounded(self.storage.todos@, self.storage.filter_tag@, self.storage.search@);
        }
        let idx = self.visible[self.selected];
        let ghost before = self.storage.todos@;
        let mut t = self.storage.todos.remove(idx);
        let done = !t.done;
        t.done = done;
        t.done_at = if done { now } else { 0 };
        self.storage.todos.insert(idx, t);
        assert(self.storage.todos@ =~= before.update(idx as int, toggled_done(before[idx as int], now)));
        self.sort_todos_at(now);
        self.check_all_done();
        let msg = if done {
            self.i18n.get("messages.done").to_owned()
        } else {
            self.i18n.get("messages.undone").to_owned()
        };
        self.set_message(msg.as_str());
        true
    }
}

impl App {
    /// Pins or unpins the selected task and puts the list back in order at
    /// `now`. Returns whether there was a task to change (and to save). The
    /// message is read from the task that stands at the task's old position
    /// once the list is back in order.
    pub fn cmd_toggle_pin(&mut self, now: u64) -> (changed: bool)
        requires
            old(self).wf(),
        ensures
            final(self).wf(),
            changed == (old(self).visible@.len() > 0),
            !changed ==> *final(self) == *old(self),
            changed ==> {
                let idx = old(self).selected_index();
                let t = old(self).storage.todos@[idx];
                &&& stably_sorted_from(final(self).storage.todos@, old(self).storage.todos@.update(idx, toggled_pin(t)), now)
                &&& final(self).message@ == old(self).text(
                    if final(self).storage.todos@[idx].pinned { "messages.pinned"@ } else { "messages.unpinned"@ })
                &&& final(self).message_ttl == 5
                &&& final(self).celebrate == old(self).celebrate
                &&& final(self).selected == clamp_selection(old(self).selected, final(self).visible@.len())
                &&& final(self).storage.search@ == old(self).storage.search@
                &&& final(self).storage.filter_tag@ == old(self).storage.filter_tag@
                &&& final(self).i18n == old(self).i18n
            },
    {
        if self.visible.len() == 0 {
            return false;
        }
        let _n = self.storage.todos.len();
        proof {
            lemma_visible_indices_bounded(self.storage.todos@, self.storage.filter_tag@, self.storage.search@);
        }
        let idx = self.visible[self.selected];
        let ghost before = self.storage.todos@;
        let mut t = self.storage.todos.remove(idx);
        t.pinned = !t.pinned;
        self.storage.todos.insert(idx, t);
        assert(self.storage.todos@ =~= before.update(idx as int, toggled_pin(before[idx as int])));
        self.sort_todos_at(now);
        let msg = if self.storage.todos[idx].pinned {
            self.i18n.get("messages.pinned").to_owned()
        } else {
            self.i18n.get("messages.unpinned").to_owned()
        };
        self.set_message(msg.as_str());
        true
    }

    /// Drops the search and the tag filter, selects the first task and says so.
    pub fn cmd_clear_filters(&mut self)
        requires
            old(self).wf(),
        ensures
            final(self).wf(),
            final(self).storage.search@.len() == 0,
            final(self).storage.filter_tag@.len() == 0,
            final(self).storage.todos@ == old(self).storage.todos@,
            final(self).selected == 0,
            final(self).message@ == old(self).text("messages.filters_cleared"@),
            final(self).message_ttl == 5,
            final(self).i18n == old(self).i18n,
            final(self).celebrate == old(self).celebrate,
    {
        self.storage.search = String::new();
        self.storage.filter_tag = String::new();
        self.selected = 0;
        self.rebuild_visible();
        let msg = self.i18n.get("messages.filters_cleared").to_owned();
        self.set_message(msg.as_str());
    }

    /// Filters by the `idx`-th tag of the statistics, or drops that filter when
    /// it is the active one, and selects the first task. Does nothing for a
    /// position past the statistics.
    pub fn cmd_filter_tag(&mut self, idx: usize)
        requires
            old(self).wf(),
        ensures
            final(self).wf(),
            idx >= old(self).storage.tags_available@.len() ==> *final(self) == *old(self),
            idx < old(self).storage.tags_available@.len() ==> {
                let tag = old(self).storage.tags_available@[idx as int].0@;
                &&& final(self).storage.filter_tag@ == if old(self).storage.filter_tag@ == tag { Seq::<char>::empty() } else { tag }
                &&& final(self).selected == 0
                &&& final(self).storage.todos@ == old(self).storage.todos@
                &&& final(self).storage.search@ == old(self).storage.search@
                &&& final(self).storage.tags_available@ == old(self).storage.tags_available@
                &&& final(self).storage.path@ == old(self).storage.path@
                &&& final(self).message@ == old(self).message@
                &&& final(self).message_ttl == old(self).message_ttl
                &&& final(self).celebrate == old(self).celebrate
                &&& final(self).list_top == old(self).list_top
                &&& final(self).pending_due@ == old(self).pending_due@
                &&& final(self).i18n == old(self).i18n
            },
    {
        if idx < self.storage.tags_available.len() {
            let tag = self.storage.tags_available[idx].0.clone();
            if self.storage.filter_tag == tag {
                self.storage.filter_tag = String::new();
            } else {
                self.storage.filter_tag = tag;
            }
            self.selected = 0;
            self.rebuild_visible();
        }
    }

    /// Shows the next language and says which one it is.
    pub fn cmd_language(&mut self)
        requires
            old(self).wf(),
        ensures
            final(self).wf(),
            final(self).i18n.languages@ == old(self).i18n.languages@,
            final(self).i18n.current_index
                == (old(self).i18n.current_index + 1) % (old(self).i18n.languages@.len() as int),
            final(self).message@ == "Language: "@ + final(self).i18n.languages@[final(self).i18n.current_index as int].0@,
            final(self).message_ttl == 5,
            final(self).storage == old(self).storage,
            final(self).visible == old(self).visible,
            final(self).selected == old(self).selected,
    {
        self.i18n.toggle_language();
        let code = self.i18n.current_code().to_owned();
        let msg = String::from_str("Language: ").concat(code.as_str());
        self.set_message(msg.as_str());
    }
}

/// Task `t` with the text `text`.
pub open spec fn with_text(t: Todo, text: String) -> Todo {
    Todo { text: text, ..t }
}

/// Task `t` with the tag `tag`.
pub open spec fn with_tag(t: Todo, tag: String) -> Todo {
    Todo { tag: tag, ..t }
}

/// Task `t` due at `due` (0 for no due date).
pub open spec fn with_due(t: Todo, due: u64) -> Todo {
    Todo { due_date: due, ..t }
}

/// Whether an answer to a confirmation is a yes.
pub open spec fn is_yes(ans: Seq<char>) -> bool {
    ans == "y"@ || ans == "Y"@
}

impl App {
    /// Adds a task with text `text`, tagged with the active tag filter and
    /// created at `now`, when the list is not full; puts the list in order and
    /// says so. Returns whether the tasks changed.
    pub fn answer_new_task(&mut self, text: &str, now: u64) -> (changed: bool)
        requires
            old(self).wf(),
        ensures
            final(self).wf(),
            changed == (old(self).storage.todos@.len() < MAX_TODOS),
            !changed ==> *final(self) == *old(self),
            changed ==> {
                &&& final(self).storage.todos@.len() == old(self).storage.todos@.len() + 1
                &&& exists|t: Todo| #![auto] t.text@ == text@ && t.tag@ == old(self).storage.filter_tag@
                    && !t.done && !t.pinned && t.created_at == now && t.done_at == 0 && t.due_date == 0
                    && stably_sorted_from(final(self).storage.todos@, old(self).storage.todos@.push(t), now)
                &&& final(self).message@ == old(self).text("messages.task_added"@)
                &&& final(self).message_ttl == 5
                &&& final(self).storage.search@ == old(self).storage.search@
                &&& final(self).storage.filter_tag@ == old(self).storage.filter_tag@
                &&& final(self).i18n == old(self).i18n
            },
    {
        if self.storage.todos.len() >= MAX_TODOS {
            return false;
        }
        let t = Todo::new_at(text, self.storage.filter_tag.as_str(), now);
        let ghost tv = t;
        self.storage.todos.push(t);
        self.sort_todos_at(now);
        let msg = self.i18n.get("messages.task_added").to_owned();
        self.set_message(msg.as_str());
        assert(tv.text@ == text@);
        true
    }

    /// Gives the selected task the text `text` and says so. Returns whether
    /// there was a task to change.
    pub fn answer_edit_task(&mut self, text: &str) -> (changed: bool)
        requires
            old(self).wf(),
        ensures
            final(self).wf(),
            changed == (old(self).visible@.len() > 0),
            !changed ==> *final(self) == *old(self),
            changed ==> {
                let idx = old(self).selected_index();
                &&& final(self).storage.todos@.len() == old(self).storage.todos@.len()
                &&& final(self).storage.todos@[idx].text@ == text@
                &&& forall|k: int| 0 <= k < old(self).storage.todos@.len() && k != idx ==>
                    #[trigger] final(self).storage.todos@[k] == old(self).storage.todos@[k]
                &&& final(self).storage.todos@[idx] == with_text(old(self).storage.todos@[idx], final(self).storage.todos@[idx].text)
                &&& final(self).message@ == old(self).text("messages.task_updated"@)
                &&& final(self).message_ttl == 5
                &&& final(self).selected == clamp_selection(old(self).selected, final(self).visible@.len())
                &&& final(self).i18n == old(self).i18n
            },
    {
        if self.visible.len() == 0 {
            return false;
        }
        let _n = self.storage.todos.len();
        proof {
            lemma_visible_indices_bounded(self.storage.todos@, self.storage.filter_tag@, self.storage.search@);
        }
        let idx = self.visible[self.selected];
        let mut t = self.storage.todos.remove(idx);
        t.text = text.to_owned();
        self.storage.todos.insert(idx, t);
        self.rebuild_visible();
        let _m = self.storage.todos.len();
        proof {
            lemma_visible_indices_bounded(self.storage.todos@, self.storage.filter_tag@, self.storage.search@);
        }
        let msg = self.i18n.get("messages.task_updated").to_owned();
        self.set_message(msg.as_str());
        true
    }

    /// Searches for `reply`, or drops the search when there is no reply, and
    /// selects the first task.
    pub fn answer_search(&mut self, reply: Option<&str>)
        requires
            old(self).wf(),
        ensures
            final(self).wf(),
            final(self).storage.search@ == match reply {
                Some(q) => q@,
                None => Seq::<char>::empty(),
            },
            final(self).selected == 0,
            final(self).storage.todos@ == old(self).storage.todos@,
            final(self).storage.filter_tag@ == old(self).storage.filter_tag@,
            final(self).message@ == old(self).message@,
            final(self).i18n == old(self).i18n,
    {
        match reply {
            Some(q) => {
                self.storage.search = q.to_owned();
            },
            None => {
                self.storage.search = String::new();
            },
        }
        self.selected = 0;
        self.rebuild_visible();
    }
}

/// A question the application asks with a popup.
#[derive(Clone, Copy, PartialEq, Eq, Debug)]
pub enum Ask {
    NewTask,
    EditTask,
    SetTag,
    DeleteTask,
    DeleteAll,
    Search,
    DueDate,
    DueTime,
    Help,
}

/// What the surrounding program is to do after a command or an answer.
#[derive(Clone, Copy, PartialEq, Eq, Debug)]
pub enum Action {
    /// Leave the program.
    Quit,
    /// Nothing more.
    Nothing,
    /// Write the tasks to their file.
    Save,
    /// Write the chosen language to its file.
    SaveLanguage,
    /// Show a popup and hand its answer back.
    Ask(Ask),
}

impl App {
    /// Gives the selected task the tag `raw`, cleaned (no white space, lower
    /// case, at most 32 characters; empty clears the tag), rebuilds the tag
    /// statistics, puts the list in order at `now` and says what happened.
    /// Returns whether there was a task to change.
    pub fn answer_set_tag(&mut self, raw: &str, now: u64) -> (changed: bool)
        requires
            old(self).wf(),
        ensures
            final(self).wf(),
            changed == (old(self).visible@.len() > 0),
            !changed ==> *final(self) == *old(self),
            changed ==> {
                let idx = old(self).selected_index();
                let t = old(self).storage.todos@[idx];
                &&& exists|tag: String| #![trigger with_tag(t, tag)] tag@ == clean_tag(raw@)
                    && stably_sorted_from(final(self).storage.todos@, old(self).storage.todos@.update(idx, with_tag(t, tag)), now)
                    && tag_stats_of(final(self).storage.tags_available@, old(self).storage.todos@.update(idx, with_tag(t, tag)))
                &&& final(self).message@ == old(self).text(if clean_tag(raw@).len() == 0 { "messages.tag_cleared"@ } else { "messages.tag_set"@ })
                &&& final(self).message_ttl == 5
                &&& final(self).storage.search@ == old(self).storage.search@
                &&& final(self).storage.filter_tag@ == old(self).storage.filter_tag@
                &&& final(self).i18n == old(self).i18n
            },
    {
        if self.visible.len() == 0 {
            return false;
        }
        let _n = self.storage.todos.len();
        proof {
            lemma_visible_indices_bounded(self.storage.todos@, self.storage.filter_tag@, self.storage.search@);
        }
        let idx = self.visible[self.selected];
        let cleaned = clean_tag_str(raw);
        let is_empty = cleaned.as_str().is_empty();
        let ghost before = self.storage.todos@;
        let ghost tag = cleaned;
        let mut t = self.storage.todos.remove(idx);
        t.tag = cleaned;
        self.storage.todos.insert(idx, t);
        assert(self.storage.todos@ =~= before.update(idx as int, with_tag(before[idx as int], tag)));
        let msg = if is_empty {
            self.i18n.get("messages.tag_cleared").to_owned()
        } else {
            self.i18n.get("messages.tag_set").to_owned()
        };
        self.set_message(msg.as_str());
        self.storage.dirty_tags = true;
        let ghost updated = self.storage.todos@;
        self.storage.rebuild_tags();
        assert(tag_stats_of(self.storage.tags_available@, updated));
        self.sort_todos_at(now);
        assert(old(self).selected_index() == idx as int);
        assert(with_tag(old(self).storage.todos@[old(self).selected_index()], tag) == with_tag(before[idx as int], tag));
        assert(tag@ == clean_tag(raw@)
            && stably_sorted_from(self.storage.todos@, before.update(idx as int, with_tag(before[idx as int], tag)), now)
            && tag_stats_of(self.storage.tags_available@, before.update(idx as int, with_tag(before[idx as int], tag))));
        true
    }

    /// Deletes the selected task on a yes (`y` or `Y`), moves the selection up
    /// when it was on the last task, puts the list in order at `now` and says
    /// so. Returns whether a task was deleted.
    pub fn answer_delete_task(&mut self, ans: &str, now: u64) -> (changed: bool)
        requires
            old(self).wf(),
        ensures
            final(self).wf(),
            changed == (old(self).visible@.len() > 0 && is_yes(ans@)),
            !changed ==> *final(self) == *old(self),
            changed ==> {
                let idx = old(self).selected_index();
                let last: int = old(self).visible@.len() - 1;
                let moved: usize = if old(self).selected >= last && old(self).selected > 0 {
                    (old(self).selected - 1) as usize
                } else {
                    old(self).selected
                };
                &&& stably_sorted_from(final(self).storage.todos@, old(self).storage.todos@.remove(idx), now)
                &&& final(self).selected == clamp_selection(moved, final(self).visible@.len())
                &&& final(self).message@ == old(self).text("messages.deleted"@)
                &&& final(self).message_ttl == 5
                &&& final(self).storage.search@ == old(self).storage.search@
                &&& final(self).storage.filter_tag@ == old(self).storage.filter_tag@
                &&& final(self).i18n == old(self).i18n
            },
    {
        if self.visible.len() == 0 {
            return false;
        }
        if !(same_text(ans, "y") || same_text(ans, "Y")) {
            return false;
        }
        let _n = self.storage.todos.len();
        proof {
            lemma_visible_indices_bounded(self.storage.todos@, self.storage.filter_tag@, self.storage.search@);
        }
        let idx = self.visible[self.selected];
        let _gone = self.storage.todos.remove(idx);
        if self.selected >= self.visible.len().saturating_sub(1) && self.selected > 0 {
            self.selected -= 1;
        }
        self.sort_todos_at(now);
        let msg = self.i18n.get("messages.deleted").to_owned();
        self.set_message(msg.as_str());
        true
    }

    /// Deletes every task on a yes (`y` or `Y`) and says so. Returns whether
    /// the tasks were deleted.
    pub fn answer_delete_all(&mut self, ans: &str, now: u64) -> (changed: bool)
        requires
            old(self).wf(),
        ensures
            final(self).wf(),
            changed == (old(self).storage.todos@.len() > 0 && is_yes(ans@)),
            !changed ==> *final(self) == *old(self),
            changed ==> {
                &&& final(self).storage.todos@.len() == 0
                &&& final(self).selected == 0
                &&& final(self).message@ == old(self).text("messages.all_deleted"@)
                &&& final(self).message_ttl == 5
                &&& final(self).storage.search@ == old(self).storage.search@
                &&& final(self).storage.filter_tag@ == old(self).storage.filter_tag@
                &&& final(self).i18n == old(self).i18n
            },
    {
        if self.storage.todos.len() == 0 {
            return false;
        }
        if !(same_text(ans, "y") || same_text(ans, "Y")) {
            return false;
        }
        self.storage.todos.clear();
        self.selected = 0;
        self.sort_todos_at(now);
        let msg = self.i18n.get("messages.all_deleted").to_owned();
        self.set_message(msg.as_str());
        true
    }
}

/// The message after setting a due date: the localised text, the date, and
/// the time when one was given.
pub open spec fn due_message(set_text: Seq<char>, date: Seq<char>, time: Seq<char>) -> Seq<char> {
    if time.len() == 0 {
        set_text + " "@ + date
    } else {
        set_text + " "@ + date + " "@ + time
    }
}

impl App {
    /// Takes the due date typed for the selected task: a blank one clears the
    /// due date (the list is put in order at `now` and the tasks are to be
    /// saved); any other is kept, without white space around it, and the time
    /// of day is to be asked next.
    pub fn answer_due_date(&mut self, date: &str, now: u64) -> (act: Action)
        requires
            old(self).wf(),
        ensures
            final(self).wf(),
            old(self).visible@.len() == 0 ==> act == Action::Nothing && *final(self) == *old(self),
            old(self).visible@.len() > 0 && trimmed(date@).len() == 0 ==> {
                let idx = old(self).selected_index();
                &&& act == Action::Save
                &&& stably_sorted_from(final(self).storage.todos@,
                    old(self).storage.todos@.update(idx, with_due(old(self).storage.todos@[idx], 0)), now)
                &&& final(self).message@ == old(self).text("due_date_cleared"@)
                &&& final(self).message_ttl == 5
                &&& final(self).i18n == old(self).i18n
            },
            old(self).visible@.len() > 0 && trimmed(date@).len() > 0 ==> {
                &&& act == Action::Ask(Ask::DueTime)
                &&& final(self).pending_due@ == trimmed(date@)
                &&& *final(self) == (App { pending_due: final(self).pending_due, ..*old(self) })
            },
    {
        if self.visible.len() == 0 {
            return Action::Nothing;
        }
        let tdate = trim_str(date);
        if tdate.as_str().is_empty() {
            let _n = self.storage.todos.len();
            proof {
                lemma_visible_indices_bounded(self.storage.todos@, self.storage.filter_tag@, self.storage.search@);
            }
            let idx = self.visible[self.selected];
            let ghost before = self.storage.todos@;
            let mut t = self.storage.todos.remove(idx);
            t.due_date = 0;
            self.storage.todos.insert(idx, t);
            assert(self.storage.todos@ =~= before.update(idx as int, with_due(before[idx as int], 0)));
            let msg = self.i18n.get("due_date_cleared").to_owned();
            self.set_message(msg.as_str());
            self.sort_todos_at(now);
            return Action::Save;
        }
        self.pending_due = tdate;
        Action::Ask(Ask::DueTime)
    }

    /// Takes the time of day typed for the due date kept before (`None` when
    /// the popup gave nothing) and sets the selected task's due date, puts the
    /// list in order at `now` and says so; says that the date is invalid when
    /// date and time do not read as a day and a time. Returns whether the
    /// tasks changed.
    pub fn answer_due_time(&mut self, reply: Option<&str>, now: u64) -> (changed: bool)
        requires
            old(self).wf(),
        ensures
            final(self).wf(),
            ({
                let time = match reply { Some(t) => trimmed(t@), None => Seq::<char>::empty() };
                let ts = due_timestamp(old(self).pending_due@, time);
                &&& changed == (old(self).visible@.len() > 0 && ts is Some)
                &&& old(self).visible@.len() == 0 ==> *final(self) == *old(self)
                &&& old(self).visible@.len() > 0 && ts is None ==>
                    final(self).message@ == old(self).text("due_date_invalid"@) && final(self).message_ttl == 5
                    && final(self).storage == old(self).storage && final(self).visible == old(self).visible
                    && final(self).selected == old(self).selected
                &&& changed ==> {
                    let idx = old(self).selected_index();
                    &&& stably_sorted_from(final(self).storage.todos@,
                        old(self).storage.todos@.update(idx, with_due(old(self).storage.todos@[idx], ts->0)), now)
                    &&& final(self).message@ == due_message(old(self).text("due_date_set"@), old(self).pending_due@, time)
                    &&& final(self).message_ttl == 5
                    &&& final(self).i18n == old(self).i18n
                }
            }),
    {
        if self.visible.len() == 0 {
            return false;
        }
        let time = match reply {
            Some(t) => trim_str(t),
            None => String::new(),
        };
        match parse_datetime(self.pending_due.as_str(), time.as_str()) {
            Some(ts) => {
                let _n = self.storage.todos.len();
                proof {
                    lemma_visible_indices_bounded(self.storage.todos@, self.storage.filter_tag@, self.storage.search@);
                }
                let idx = self.visible[self.selected];
                let ghost before = self.storage.todos@;
                let mut t = self.storage.todos.remove(idx);
                t.due_date = ts;
                self.storage.todos.insert(idx, t);
                assert(self.storage.todos@ =~= before.update(idx as int, with_due(before[idx as int], ts)));
                let set_text = self.i18n.get("due_date_set").to_owned();
                let mut display = set_text.concat(" ").concat(self.pending_due.as_str());
                if !time.as_str().is_empty() {
                    display = display.concat(" ").concat(time.as_str());
                }
                self.set_message(display.as_str());
                self.sort_todos_at(now);
                true
            },
            None => {
                let msg = self.i18n.get("due_date_invalid").to_owned();
                self.set_message(msg.as_str());
                false
            },
        }
    }
}

/// The first `k` tags of the statistics written `#tag`, separated by spaces.
pub open spec fn tag_list(tags: Seq<(String, usize)>, k: int) -> Seq<char>
    decreases k,
{
    if k <= 0 {
        Seq::empty()
    } else if k == 1 {
        "#"@ + tags[0].0@
    } else {
        tag_list(tags, k - 1) + " #"@ + tags[k - 1].0@
    }
}

/// How many tags the tag popup lists: at most six.
pub open spec fn listed_tags(len: nat) -> int {
    if len <= 6 { len as int } else { 6 }
}

/// What a popup shows: its title, a hint, the text it starts with, and its kind.
pub struct PopupRequest {
    pub title: String,
    pub hint: String,
    pub initial: String,
    pub mode: PopupMode,
}

/// The action a command leads to, given how many tasks are shown and stored.
pub open spec fn command_action(cmd: Command, shown: nat, stored: nat) -> Action {
    match cmd {
        Command::Quit => Action::Quit,
        Command::Language => Action::SaveLanguage,
        Command::NewTask => Action::Ask(Ask::NewTask),
        Command::Search => Action::Ask(Ask::Search),
        Command::Help => Action::Ask(Ask::Help),
        Command::EditTask => if shown > 0 { Action::Ask(Ask::EditTask) } else { Action::Nothing },
        Command::SetTag => if shown > 0 { Action::Ask(Ask::SetTag) } else { Action::Nothing },
        Command::DeleteTask => if shown > 0 { Action::Ask(Ask::DeleteTask) } else { Action::Nothing },
        Command::SetDueDate => if shown > 0 { Action::Ask(Ask::DueDate) } else { Action::Nothing },
        Command::DeleteAll => if stored > 0 { Action::Ask(Ask::DeleteAll) } else { Action::Nothing },
        Command::ToggleDone => if shown > 0 { Action::Save } else { Action::Nothing },
        Command::TogglePin => if shown > 0 { Action::Save } else { Action::Nothing },
        _ => Action::Nothing,
    }
}

impl App {
    /// The hint of the tag popup: the tags most used, or a note that there are none.
    pub fn set_tag_hint(&self) -> (h: String)
        requires
            self.wf(),
        ensures
            h@ == if self.storage.tags_available@.len() > 0 {
                self.text("popup_set_tag_hint_existing"@) + tag_list(self.storage.tags_available@, listed_tags(self.storage.tags_available@.len()))
            } else {
                self.text("popup_set_tag_hint_empty"@)
            },
    {
        let n = self.storage.tags_available.len();
        if n == 0 {
            return self.i18n.get("popup_set_tag_hint_empty").to_owned();
        }
        let k: usize = if n <= 6 { n } else { 6 };
        let mut list = String::new();
        let mut i: usize = 0;
        while i < k
            invariant
                i <= k,
                k <= n,
                n == self.storage.tags_available@.len(),
                list@ == tag_list(self.storage.tags_available@, i as int),
            decreases k - i,
        {
            if i == 0 {
                list = list.concat("#");
            } else {
                list = list.concat(" #");
            }
            list = list.concat(self.storage.tags_available[i].0.as_str());
            proof {
                if i == 0 {
                    assert(list@ =~= "#"@ + self.storage.tags_available@[0].0@);
                }
            }
            i = i + 1;
        }
        let head = self.i18n.get("popup_set_tag_hint_existing").to_owned();
        head.concat(list.as_str())
    }

    /// The text of the selected task, or an empty text when none is shown.
    pub fn selected_text(&self) -> (t: String)
        requires
            self.wf(),
        ensures
            self.visible@.len() > 0 ==> t@ == self.storage.todos@[self.selected_index()].text@,
            self.visible@.len() == 0 ==> t@.len() == 0,
    {
        if self.visible.len() == 0 {
            return String::new();
        }
        let _n = self.storage.todos.len();
        proof {
            lemma_visible_indices_bounded(self.storage.todos@, self.storage.filter_tag@, self.storage.search@);
        }
        self.storage.todos[self.visible[self.selected]].text.clone()
    }

    /// What the popup for `ask` shows.
    pub fn popup_request(&self, ask: Ask) -> (r: PopupRequest)
        requires
            self.wf(),
        ensures
            ask == Ask::NewTask ==> r.title@ == self.text("popup_new_title"@) && r.hint@ == self.text("popup_new_hint"@)
                && r.initial@.len() == 0 && r.mode == PopupMode::Multiline,
            ask == Ask::EditTask ==> r.title@ == self.text("popup_edit_title"@) && r.hint@ == self.text("popup_edit_hint"@)
                && (self.visible@.len() > 0 ==> r.initial@ == self.storage.todos@[self.selected_index()].text@)
                && r.mode == PopupMode::Multiline,
            ask == Ask::SetTag ==> r.title@ == self.text("popup_set_tag_title"@)
                && r.hint@ == (if self.storage.tags_available@.len() > 0 {
                    self.text("popup_set_tag_hint_existing"@) + tag_list(self.storage.tags_available@, listed_tags(self.storage.tags_available@.len()))
                } else {
                    self.text("popup_set_tag_hint_empty"@)
                })
                && r.initial@.len() == 0 && r.mode == PopupMode::Singleline,
            ask == Ask::DeleteTask ==> r.hint@.len() == 0 && r.initial@.len() == 0 && r.mode == PopupMode::Singleline
                && (self.visible@.len() > 0 ==> r.title@ == fill_braces(self.text("popup_delete_confirm"@), self.storage.todos@[self.selected_index()].text@)),
            ask == Ask::DeleteAll ==> r.title@ == fill_braces(self.text("popup_delete_all_confirm"@), decimal(self.storage.todos@.len()))
                && r.hint@ == self.text("popup_delete_all_warning"@) && r.initial@.len() == 0 && r.mode == PopupMode::Singleline,
            ask == Ask::Search ==> r.title@ == self.text("popup_search_title"@) && r.hint@ == self.text("popup_search_hint"@)
                && r.initial@ == self.storage.search@ && r.mode == PopupMode::Multiline,
            ask == Ask::DueDate ==> r.title@ == self.text("popup_due_date_title"@) && r.hint@ == self.text("popup_due_date_hint"@)
                && r.initial@.len() == 0 && r.mode == PopupMode::Singleline,
            ask == Ask::DueTime ==> r.title@.len() == 0 && r.hint@ == self.text("popup_due_time_hint"@)
                && r.initial@.len() == 0 && r.mode == PopupMode::Singleline,
            ask == Ask::Help ==> r.title@ == self.text("popup_help_title"@) && r.hint@ == self.text("popup_help_hint"@)
                && r.initial@ == self.text("help_content"@) && r.mode == PopupMode::Readonly,
    {
        match ask {
            Ask::NewTask => PopupRequest {
                title: self.i18n.get("popup_new_title").to_owned(),
                hint: self.i18n.get("popup_new_hint").to_owned(),
                initial: String::new(),
                mode: PopupMode::Multiline,
            },
            Ask::EditTask => PopupRequest {
                title: self.i18n.get("popup_edit_title").to_owned(),
                hint: self.i18n.get("popup_edit_hint").to_owned(),
                initial: self.selected_text(),
                mode: PopupMode::Multiline,
            },
            Ask::SetTag => PopupRequest {
                title: self.i18n.get("popup_set_tag_title").to_owned(),
                hint: self.set_tag_hint(),
                initial: String::new(),
                mode: PopupMode::Singleline,
            },
            Ask::DeleteTask => {
                let text = self.selected_text();
                PopupRequest {
                    title: fill_placeholder(self.i18n.get("popup_delete_confirm"), text.as_str()),
                    hint: String::new(),
                    initial: String::new(),
                    mode: PopupMode::Singleline,
                }
            },
            Ask::DeleteAll => {
                let count = decimal_string(self.storage.todos.len());
                PopupRequest {
                    title: fill_placeholder(self.i18n.get("popup_delete_all_confirm"), count.as_str()),
                    hint: self.i18n.get("popup_delete_all_warning").to_owned(),
                    initial: String::new(),
                    mode: PopupMode::Singleline,
                }
            },
            Ask::Search => PopupRequest {
                title: self.i18n.get("popup_search_title").to_owned(),
                hint: self.i18n.get("popup_search_hint").to_owned(),
                initial: self.storage.search.clone(),
                mode: PopupMode::Multiline,
            },
            Ask::DueDate => PopupRequest {
                title: self.i18n.get("popup_due_date_title").to_owned(),
                hint: self.i18n.get("popup_due_date_hint").to_owned(),
                initial: String::new(),
                mode: PopupMode::Singleline,
            },
            Ask::DueTime => PopupRequest {
                title: String::new(),
                hint: self.i18n.get("popup_due_time_hint").to_owned(),
                initial: String::new(),
                mode: PopupMode::Singleline,
            },
            Ask::Help => PopupRequest {
                title: self.i18n.get("popup_help_title").to_owned(),
                hint: self.i18n.get("popup_help_hint").to_owned(),
                initial: self.i18n.get("help_content").to_owned(),
                mode: PopupMode::Readonly,
            },
        }
    }

    /// Carries out command `cmd` as far as it needs no popup, on a screen
    /// `height` rows high at time `now`, and says what is to happen next.
    pub fn handle_command(&mut self, cmd: Command, height: u16, now: u64) -> (act: Action)
        requires
            old(self).wf(),
        ensures
            final(self).wf(),
            act == command_action(cmd, old(self).visible@.len(), old(self).storage.todos@.len()),
            act is Quit || act is Ask ==> *final(self) == *old(self),
            cmd == Command::Up ==> *final(self) == (App { selected: sel_up(old(self).selected), ..*old(self) }),
            cmd == Command::Down ==> *final(self) == (App { selected: sel_down(old(self).selected, old(self).visible@.len()), ..*old(self) }),
            cmd == Command::Top ==> *final(self) == (App { selected: 0, ..*old(self) }),
            cmd == Command::Bottom ==> *final(self) == (App { selected: sel_bottom(old(self).visible@.len()), ..*old(self) }),
            cmd == Command::PageUp ==> *final(self) == (App { selected: sel_page_up(old(self).selected, height), ..*old(self) }),
            cmd == Command::PageDown ==> *final(self) == (App { selected: sel_page_down(old(self).selected, old(self).visible@.len(), height), ..*old(self) }),
            cmd == Command::ToggleDone && old(self).visible@.len() > 0 ==> stably_sorted_from(final(self).storage.todos@,
                old(self).storage.todos@.update(old(self).selected_index(), toggled_done(old(self).storage.todos@[old(self).selected_index()], now)), now),
            cmd == Command::TogglePin && old(self).visible@.len() > 0 ==> stably_sorted_from(final(self).storage.todos@,
                old(self).storage.todos@.update(old(self).selected_index(), toggled_pin(old(self).storage.todos@[old(self).selected_index()])), now),
            cmd == Command::ClearFilters ==> final(self).storage.search@.len() == 0 && final(self).storage.filter_tag@.len() == 0
                && final(self).storage.todos@ == old(self).storage.todos@ && final(self).selected == 0,
            cmd == Command::Language ==> final(self).i18n.current_index
                == (old(self).i18n.current_index + 1) % (old(self).i18n.languages@.len() as int)
                && final(self).storage == old(self).storage,
            cmd == Command::ToggleDone && old(self).visible@.len() > 0 ==> {
                let t = old(self).storage.todos@[old(self).selected_index()];
                &&& final(self).message@ == old(self).text(if !t.done { "messages.done"@ } else { "messages.undone"@ })
                &&& final(self).celebrate == celebration_after(final(self).storage.todos@, old(self).celebrate)
            },
            cmd == Command::TogglePin && old(self).visible@.len() > 0 ==> final(self).message@ == old(self).text(
                if final(self).storage.todos@[old(self).selected_index()].pinned { "messages.pinned"@ } else { "messages.unpinned"@ }),
            (cmd == Command::ToggleDone || cmd == Command::TogglePin) && old(self).visible@.len() == 0 ==> *final(self) == *old(self),
            cmd == Command::ClearFilters ==> final(self).message@ == old(self).text("messages.filters_cleared"@),
            cmd == Command::Language ==> final(self).message@
                == "Language: "@ + final(self).i18n.languages@[final(self).i18n.current_index as int].0@,
            cmd matches Command::FilterTag(i) ==> {
                &&& i >= old(self).storage.tags_available@.len() ==> *final(self) == *old(self)
                &&& i < old(self).storage.tags_available@.len() ==> {
                    let tag = old(self).storage.tags_available@[i as int].0@;
                    &&& final(self).storage.filter_tag@ == if old(self).storage.filter_tag@ == tag { Seq::<char>::empty() } else { tag }
                    &&& final(self).selected == 0
                    &&& final(self).storage.todos@ == old(self).storage.todos@
                    &&& final(self).storage.search@ == old(self).storage.search@
                }
            },
            cmd == Command::Nothing ==> *final(self) == *old(self),
    {
        match cmd {
            Command::Quit => Action::Quit,
            Command::Language => {
                self.cmd_language();
                Action::SaveLanguage
            },
            Command::Up => {
                self.cmd_up();
                Action::Nothing
            },
            Command::Down => {
                self.cmd_down();
                Action::Nothing
            },
            Command::Top => {
                self.cmd_top();
                Action::Nothing
            },
            Command::Bottom => {
                self.cmd_bottom();
                Action::Nothing
            },
            Command::PageUp => {
                self.cmd_page_up(height);
                Action::Nothing
            },
            Command::PageDown => {
                self.cmd_page_down(height);
                Action::Nothing
            },
            Command::NewTask => Action::Ask(Ask::NewTask),
            Command::EditTask => if self.visible.len() > 0 { Action::Ask(Ask::EditTask) } else { Action::Nothing },
            Command::ToggleDone => if self.cmd_toggle_done(now) { Action::Save } else { Action::Nothing },
            Command::TogglePin => if self.cmd_toggle_pin(now) { Action::Save } else { Action::Nothing },
            Command::SetTag => if self.visible.len() > 0 { Action::Ask(Ask::SetTag) } else { Action::Nothing },
            Command::DeleteTask => if self.visible.len() > 0 { Action::Ask(Ask::DeleteTask) } else { Action::Nothing },
            Command::DeleteAll => if self.storage.todos.len() > 0 { Action::Ask(Ask::DeleteAll) } else { Action::Nothing },
            Command::Search => Action::Ask(Ask::Search),
            Command::ClearFilters => {
                self.cmd_clear_filters();
                Action::Nothing
            },
            Command::FilterTag(i) => {
                self.cmd_filter_tag(i);
                Action::Nothing
            },
            Command::SetDueDate => if self.visible.len() > 0 { Action::Ask(Ask::DueDate) } else { Action::Nothing },
            Command::Help => Action::Ask(Ask::Help),
            Command::Nothing => Action::Nothing,
        }
    }

    /// Takes the answer `reply` of the popup for `ask` (`None` when it gave
    /// nothing) at time `now`, and says what is to happen next.
    pub fn answer(&mut self, ask: Ask, reply: Option<&str>, now: u64) -> (act: Action)
        requires
            old(self).wf(),
        ensures
            final(self).wf(),
            reply is None && ask != Ask::Search && ask != Ask::DueTime ==> *final(self) == *old(self) && act == Action::Nothing,
            ask == Ask::Help ==> *final(self) == *old(self) && act == Action::Nothing,
            ask == Ask::Search ==> act == Action::Nothing && final(self).selected == 0
                && final(self).storage.search@ == match reply { Some(q) => q@, None => Seq::<char>::empty() },
            ask == Ask::NewTask && reply is Some ==> act == if old(self).storage.todos@.len() < MAX_TODOS { Action::Save } else { Action::Nothing },
            ask == Ask::EditTask && reply is Some ==> act == if old(self).visible@.len() > 0 { Action::Save } else { Action::Nothing },
            ask == Ask::EditTask && reply is Some && old(self).visible@.len() > 0 ==>
                final(self).storage.todos@[old(self).selected_index()].text@ == reply->0@,
            ask == Ask::SetTag && reply is Some ==> act == if old(self).visible@.len() > 0 { Action::Save } else { Action::Nothing },
            ask == Ask::DeleteTask && reply is Some ==> act == if old(self).visible@.len() > 0 && is_yes(reply->0@) { Action::Save } else { Action::Nothing },
            ask == Ask::DeleteTask && reply is Some && old(self).visible@.len() > 0 && is_yes(reply->0@) ==>
                stably_sorted_from(final(self).storage.todos@, old(self).storage.todos@.remove(old(self).selected_index()), now),
            ask == Ask::DeleteAll && reply is Some ==> act == if old(self).storage.todos@.len() > 0 && is_yes(reply->0@) { Action::Save } else { Action::Nothing },
            ask == Ask::DeleteAll && reply is Some && old(self).storage.todos@.len() > 0 && is_yes(reply->0@) ==>
                final(self).storage.todos@.len() == 0,
            ask == Ask::DueDate && reply is Some ==> act == if old(self).visible@.len() == 0 {
                Action::Nothing
            } else if trimmed(reply->0@).len() == 0 {
                Action::Save
            } else {
                Action::Ask(Ask::DueTime)
            },
            ask == Ask::DueTime ==> act == if old(self).visible@.len() > 0 && due_timestamp(old(self).pending_due@,
                match reply { Some(t) => trimmed(t@), None => Seq::<char>::empty() }) is Some { Action::Save } else { Action::Nothing },
            ask == Ask::NewTask && reply is Some && old(self).storage.todos@.len() < MAX_TODOS ==> {
                &&& final(self).storage.todos@.len() == old(self).storage.todos@.len() + 1
                &&& exists|t: Todo| #![auto] t.text@ == reply->0@ && t.tag@ == old(self).storage.filter_tag@
                    && !t.done && !t.pinned && t.created_at == now && t.done_at == 0 && t.due_date == 0
                    && stably_sorted_from(final(self).storage.todos@, old(self).storage.todos@.push(t), now)
                &&& final(self).message@ == old(self).text("messages.task_added"@)
            },
            ask == Ask::SetTag && reply is Some && old(self).visible@.len() > 0 ==> {
                let idx = old(self).selected_index();
                let t = old(self).storage.todos@[idx];
                &&& exists|tag: String| #![trigger with_tag(t, tag)] tag@ == clean_tag(reply->0@)
                    && stably_sorted_from(final(self).storage.todos@, old(self).storage.todos@.update(idx, with_tag(t, tag)), now)
                    && tag_stats_of(final(self).storage.tags_available@, old(self).storage.todos@.update(idx, with_tag(t, tag)))
                &&& final(self).message@ == old(self).text(if clean_tag(reply->0@).len() == 0 { "messages.tag_cleared"@ } else { "messages.tag_set"@ })
            },
            ask == Ask::DeleteTask && reply is Some && old(self).visible@.len() > 0 && is_yes(reply->0@) ==>
                final(self).message@ == old(self).text("messages.deleted"@),
            ask == Ask::DeleteAll && reply is Some && old(self).storage.todos@.len() > 0 && is_yes(reply->0@) ==>
                final(self).message@ == old(self).text("messages.all_deleted"@),
            ask == Ask::DueDate && reply is Some && old(self).visible@.len() > 0 && trimmed(reply->0@).len() == 0 ==> {
                let idx = old(self).selected_index();
                &&& stably_sorted_from(final(self).storage.todos@,
                    old(self).storage.todos@.update(idx, with_due(old(self).storage.todos@[idx], 0)), now)
                &&& final(self).message@ == old(self).text("due_date_cleared"@)
            },
            ask == Ask::DueDate && reply is Some && old(self).visible@.len() > 0 && trimmed(reply->0@).len() > 0 ==>
                final(self).pending_due@ == trimmed(reply->0@)
                && *final(self) == (App { pending_due: final(self).pending_due, ..*old(self) }),
            ask == Ask::DueTime ==> ({
                let time = match reply { Some(t) => trimmed(t@), None => Seq::<char>::empty() };
                let ts = due_timestamp(old(self).pending_due@, time);
                &&& old(self).visible@.len() > 0 && ts is None ==>
                    final(self).message@ == old(self).text("due_date_invalid"@) && final(self).storage == old(self).storage
                &&& old(self).visible@.len() > 0 && ts is Some ==> {
                    let idx = old(self).selected_index();
                    &&& stably_sorted_from(final(self).storage.todos@,
                        old(self).storage.todos@.update(idx, with_due(old(self).storage.todos@[idx], ts->0)), now)
                    &&& final(self).message@ == due_message(old(self).text("due_date_set"@), old(self).pending_due@, time)
                }
            }),
    {
        match ask {
            Ask::Search => {
                self.answer_search(reply);
                Action::Nothing
            },
            Ask::DueTime => if self.answer_due_time(reply, now) { Action::Save } else { Action::Nothing },
            Ask::Help => Action::Nothing,
            _ => match reply {
                None => Action::Nothing,
                Some(r) => match ask {
                    Ask::NewTask => if self.answer_new_task(r, now) { Action::Save } else { Action::Nothing },
                    Ask::EditTask => if self.answer_edit_task(r) { Action::Save } else { Action::Nothing },
                    Ask::SetTag => if self.answer_set_tag(r, now) { Action::Save } else { Action::Nothing },
                    Ask::DeleteTask => if self.answer_delete_task(r, now) { Action::Save } else { Action::Nothing },
                    Ask::DeleteAll => if self.answer_delete_all(r, now) { Action::Save } else { Action::Nothing },
                    _ => self.answer_due_date(r, now),
                },
            },
        }
    }
}


/// The message and its remaining ticks after `k` ticks, from `msg` with
/// `ttl` ticks left: each tick takes one off, and a tick with none left
/// clears the message (one step is what [`App::tick`] does).
pub open spec fn message_after(msg: Seq<char>, ttl: u8, k: nat) -> (Seq<char>, u8)
    decreases k,
{
    if k == 0 {
        (msg, ttl)
    } else {
        let p = message_after(msg, ttl, (k - 1) as nat);
        if p.1 > 0 {
            (p.0, (p.1 - 1) as u8)
        } else {
            (Seq::<char>::empty(), 0u8)
        }
    }
}

/// A message set with [`App::set_message`] (five ticks) is shown for five
/// ticks and gone from the sixth on.
pub proof fn lemma_message_lasts(msg: Seq<char>, k: nat)
    ensures
        k <= 5 ==> message_after(msg, 5, k).0 == msg && message_after(msg, 5, k).1 == 5 - k,
        k >= 6 ==> message_after(msg, 5, k).0 == Seq::<char>::empty() && message_after(msg, 5, k).1 == 0,
    decreases k,
{
    if k > 0 {
        lemma_message_lasts(msg, (k - 1) as nat);
    }
}

/// A run of ticks: where each state is what [`App::tick`] makes of the one
/// before (as its contract states), the last state is [`message_after`] the
/// first, as many ticks on as there were steps.
pub proof fn lemma_tick_chain(states: Seq<(Seq<char>, u8)>)
    requires
        states.len() >= 1,
        forall|i: int| 0 <= i < states.len() - 1 ==> {
            &&& (#[trigger] states[i + 1]).0 == message_after(states[i].0, states[i].1, 1).0
            &&& states[i + 1].1 == message_after(states[i].0, states[i].1, 1).1
        },
    ensures
        states.last().0 == message_after(states[0].0, states[0].1, (states.len() - 1) as nat).0,
        states.last().1 == message_after(states[0].0, states[0].1, (states.len() - 1) as nat).1,
    decreases states.len(),
{
    if states.len() > 1 {
        let prev = states.drop_last();
        assert forall|i: int| 0 <= i < prev.len() - 1 implies {
            &&& (#[trigger] prev[i + 1]).0 == message_after(prev[i].0, prev[i].1, 1).0
            &&& prev[i + 1].1 == message_after(prev[i].0, prev[i].1, 1).1
        } by {
            assert(prev[i + 1] == states[i + 1] && prev[i] == states[i]);
        }
        lemma_tick_chain(prev);
        let k = (states.len() - 1) as nat;
        let n = states.len() - 2;
        assert(states[n + 1] == states.last());
        let q = message_after(states[n].0, states[n].1, 0);
        assert(q.0 == states[n].0 && q.1 == states[n].1);
        assert(prev.last() == states[n]);
    }
}

/// Sorting twice at one instant is sorting once: the list sorted a second
/// time is the list sorted the first time, and so are the tasks shown and
/// the selection, which follow from it.
pub proof fn lemma_sort_twice(inp: Seq<Todo>, first: Seq<Todo>, second: Seq<Todo>, now: u64, selected: usize, shown: nat)
    requires
        stably_sorted_from(first, inp, now),
        stably_sorted_from(second, first, now),
    ensures
        second == first,
        clamp_selection(clamp_selection(selected, shown), shown) == clamp_selection(selected, shown),
{
    lemma_sorted_stays(second, first, now);
}
} // verus!
