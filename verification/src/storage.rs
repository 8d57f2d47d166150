//! The task store: the list of tasks, the active search and tag filter, and
//! the tag statistics shown beside the list.

use vstd::prelude::*;
use vstd::string::*;
use crate::todo::Todo;
use crate::record::{fields_of, tasks_of_lines, file_of, TodoFields, lemma_file_roundtrip};
use crate::text::{decimal, lines_of, split_lines, string_of, views};

verus! {

/// Number of tasks of `s` that are not done.
pub open spec fn count_pending(s: Seq<Todo>) -> nat
    decreases s.len(),
{
    if s.len() == 0 {
        0
    } else {
        count_pending(s.drop_last()) + if !s.last().done { 1nat } else { 0nat }
    }
}

/// Number of tasks of `s` that are done.
pub open spec fn count_done(s: Seq<Todo>) -> nat
    decreases s.len(),
{
    if s.len() == 0 {
        0
    } else {
        count_done(s.drop_last()) + if s.last().done { 1nat } else { 0nat }
    }
}

/// Number of tasks of `s` that are pinned.
pub open spec fn count_pinned(s: Seq<Todo>) -> nat
    decreases s.len(),
{
    if s.len() == 0 {
        0
    } else {
        count_pinned(s.drop_last()) + if s.last().pinned { 1nat } else { 0nat }
    }
}

/// Number of tasks of `s` whose tag is `tag`.
pub open spec fn count_tag(s: Seq<Todo>, tag: Seq<char>) -> nat
    decreases s.len(),
{
    if s.len() == 0 {
        0
    } else {
        count_tag(s.drop_last(), tag) + if s.last().tag@ == tag { 1nat } else { 0nat }
    }
}

/// Every task is either pending or done.
pub proof fn lemma_pending_plus_done(s: Seq<Todo>)
    ensures
        count_pending(s) + count_done(s) == s.len(),
    decreases s.len(),
{
    if s.len() > 0 {
        lemma_pending_plus_done(s.drop_last());
    }
}

/// No count exceeds the number of tasks.
pub proof fn lemma_counts_bounded(s: Seq<Todo>, tag: Seq<char>)
    ensures
        count_pending(s) <= s.len(),
        count_done(s) <= s.len(),
        count_pinned(s) <= s.len(),
        count_tag(s, tag) <= s.len(),
    decreases s.len(),
{
    if s.len() > 0 {
        lemma_counts_bounded(s.drop_last(), tag);
    }
}

/// A tag that no task carries has count 0.
pub proof fn lemma_count_tag_absent(s: Seq<Todo>, tag: Seq<char>)
    requires
        forall|k: int| 0 <= k < s.len() ==> (#[trigger] s[k]).tag@ != tag,
    ensures
        count_tag(s, tag) == 0,
    decreases s.len(),
{
    if s.len() > 0 {
        lemma_count_tag_absent(s.drop_last(), tag);
    }
}

/// What the tag statistics say of `todos`: each distinct non-empty tag once,
/// with the number of tasks that carry it, the most used first.
pub open spec fn tag_stats_of(tags: Seq<(String, usize)>, todos: Seq<Todo>) -> bool {
    &&& forall|a: int, b: int| 0 <= a < b < tags.len() ==> tags[a].0@ != tags[b].0@
    &&& forall|a: int| 0 <= a < tags.len() ==> {
        &&& (#[trigger] tags[a]).0@.len() > 0
        &&& tags[a].1 > 0
        &&& tags[a].1 == count_tag(todos, tags[a].0@)
    }
    &&& forall|k: int| 0 <= k < todos.len() && (#[trigger] todos[k]).tag@.len() > 0 ==>
        exists|a: int| 0 <= a < tags.len() && (#[trigger] tags[a]).0@ == todos[k].tag@
    &&& forall|a: int, b: int| 0 <= a <= b < tags.len() ==> tags[a].1 >= tags[b].1
}

/// The task store.
pub struct Storage {
    pub todos: Vec<Todo>,
    pub search: String,
    pub filter_tag: String,
    pub tags_available: Vec<(String, usize)>,
    pub dirty_tags: bool,
    pub path: String,
}

impl Storage {
    /// An empty store that will live at `path`, with its tag statistics due for a rebuild.
    pub fn new(path: String) -> (s: Storage)
        ensures
            s.todos@.len() == 0,
            s.search@.len() == 0,
            s.filter_tag@.len() == 0,
            s.tags_available@.len() == 0,
            s.dirty_tags,
            s.path@ == path@,
    {
        Storage {
            todos: Vec::new(),
            search: String::new(),
            filter_tag: String::new(),
            tags_available: Vec::new(),
            dirty_tags: true,
            path,
        }
    }

    /// The file the store lives in.
    pub fn path_str(&self) -> (p: &str)
        ensures
            p@ == self.path@,
    {
        self.path.as_str()
    }

    /// Number of tasks not done.
    pub fn pending_count(&self) -> (n: usize)
        ensures
            n == count_pending(self.todos@),
    {
        let mut n: usize = 0;
        let mut i: usize = 0;
        while i < self.todos.len()
            invariant
                i <= self.todos.len(),
                n == count_pending(self.todos@.take(i as int)),
            decreases self.todos.len() - i,
        {
            assert(self.todos@.take(i + 1).drop_last() =~= self.todos@.take(i as int));
            proof { lemma_counts_bounded(self.todos@.take(i as int), Seq::empty()); }
            if !self.todos[i].done {
                n = n + 1;
            }
            i = i + 1;
        }
        assert(self.todos@.take(i as int) =~= self.todos@);
        n
    }

    /// Number of tasks done.
    pub fn done_count(&self) -> (n: usize)
        ensures
            n == count_done(self.todos@),
    {
        let mut n: usize = 0;
        let mut i: usize = 0;
        while i < self.todos.len()
            invariant
                i <= self.todos.len(),
                n == count_done(self.todos@.take(i as int)),
            decreases self.todos.len() - i,
        {
            assert(self.todos@.take(i + 1).drop_last() =~= self.todos@.take(i as int));
            proof { lemma_counts_bounded(self.todos@.take(i as int), Seq::empty()); }
            if self.todos[i].done {
                n = n + 1;
            }
            i = i + 1;
        }
        assert(self.todos@.take(i as int) =~= self.todos@);
        n
    }

    /// Number of tasks pinned.
    pub fn pinned_count(&self) -> (n: usize)
        ensures
            n == count_pinned(self.todos@),
    {
        let mut n: usize = 0;
        let mut i: usize = 0;
        while i < self.todos.len()
            invariant
                i <= self.todos.len(),
                n == count_pinned(self.todos@.take(i as int)),
            decreases self.todos.len() - i,
        {
            assert(self.todos@.take(i + 1).drop_last() =~= self.todos@.take(i as int));
            proof { lemma_counts_bounded(self.todos@.take(i as int), Seq::empty()); }
            if self.todos[i].pinned {
                n = n + 1;
            }
            i = i + 1;
        }
        assert(self.todos@.take(i as int) =~= self.todos@);
        n
    }
}

/// The position of the entry of `names` equal to `t`, if any.
fn find_name(names: &Vec<String>, t: &String) -> (r: Option<usize>)
    ensures
        r matches Some(j) ==> j < names@.len() && names@[j as int]@ == t@,
        r is None ==> forall|a: int| 0 <= a < names@.len() ==> (#[trigger] names@[a])@ != t@,
{
    let mut j: usize = 0;
    while j < names.len()
        invariant
            j <= names@.len(),
            forall|a: int| 0 <= a < j ==> (#[trigger] names@[a])@ != t@,
        decreases names.len() - j,
    {
        if names[j] == *t {
            return Some(j);
        }
        j = j + 1;
    }
    None
}

/// Counts the tasks of each distinct non-empty tag, in order of first use.
fn tally_tags(todos: &Vec<Todo>) -> (r: (Vec<String>, Vec<usize>))
    ensures
        r.0@.len() == r.1@.len(),
        forall|a: int, b: int| 0 <= a < b < r.0@.len() ==> r.0@[a]@ != r.0@[b]@,
        forall|a: int| 0 <= a < r.0@.len() ==> {
            &&& (#[trigger] r.0@[a])@.len() > 0
            &&& r.1@[a] > 0
            &&& r.1@[a] == count_tag(todos@, r.0@[a]@)
        },
        forall|k: int| 0 <= k < todos@.len() && (#[trigger] todos@[k]).tag@.len() > 0 ==>
            has_name(r.0@, todos@[k].tag@),
{
    let mut names: Vec<String> = Vec::new();
    let mut counts: Vec<usize> = Vec::new();
    let mut i: usize = 0;
    while i < todos.len()
        invariant
            i <= todos@.len(),
            names@.len() == counts@.len(),
            forall|a: int, b: int| 0 <= a < b < names@.len() ==> names@[a]@ != names@[b]@,
            forall|a: int| 0 <= a < names@.len() ==> {
                &&& (#[trigger] names@[a])@.len() > 0
                &&& counts@[a] > 0
                &&& counts@[a] == count_tag(todos@.take(i as int), names@[a]@)
            },
            forall|k: int| 0 <= k < i && (#[trigger] todos@[k]).tag@.len() > 0 ==>
                has_name(names@, todos@[k].tag@),
        decreases todos@.len() - i,
    {
        let ghost pre = todos@.take(i as int);
        let ghost post = todos@.take(i + 1);
        assert(post.drop_last() =~= pre);
        assert(post.last() == todos@[i as int]);
        let t = &todos[i].tag;
        if t.as_str().is_empty() {
            assert forall|a: int| 0 <= a < names@.len() implies
                counts@[a] == count_tag(post, (#[trigger] names@[a])@) by {}
        } else {
            match find_name(&names, t) {
                Some(j) => {
                    proof { lemma_counts_bounded(pre, t@); }
                    let c = counts[j] + 1;
                    counts.set(j, c);
                    assert forall|a: int| 0 <= a < names@.len() implies
                        counts@[a] == count_tag(post, (#[trigger] names@[a])@) by {
                        if a != j {
                            assert(names@[a]@ != names@[j as int]@);
                        }
                    }
                    assert forall|k: int| 0 <= k < i + 1 && (#[trigger] todos@[k]).tag@.len() > 0 implies
                        has_name(names@, todos@[k].tag@) by {
                        if k == i {
                            assert(names@[j as int]@ == todos@[k].tag@);
                        }
                    }
                },
                None => {
                    assert forall|k: int| 0 <= k < pre.len() implies (#[trigger] pre[k]).tag@ != t@ by {
                        assert(pre[k] == todos@[k]);
                        if todos@[k].tag@ == t@ {
                            assert(has_name(names@, todos@[k].tag@));
                            let a = choose|a: int| 0 <= a < names@.len() && (#[trigger] names@[a])@ == todos@[k].tag@;
                            assert(names@[a]@ != t@);
                        }
                    }
                    proof { lemma_count_tag_absent(pre, t@); }
                    let ghost old_names = names@;
                    names.push(t.clone());
                    counts.push(1);
                    assert forall|a: int| 0 <= a < names@.len() implies
                        counts@[a] == count_tag(post, (#[trigger] names@[a])@) by {
                        if a < old_names.len() {
                            assert(names@[a] == old_names[a]);
                            assert(old_names[a]@ != t@);
                        }
                    }
                    assert forall|k: int| 0 <= k < i + 1 && (#[trigger] todos@[k]).tag@.len() > 0 implies
                        has_name(names@, todos@[k].tag@) by {
                        if k == i {
                            assert(names@[old_names.len() as int]@ == todos@[k].tag@);
                        } else {
                            assert(has_name(old_names, todos@[k].tag@));
                            let a = choose|a: int| 0 <= a < old_names.len() && (#[trigger] old_names[a])@ == todos@[k].tag@;
                            assert(names@[a] == old_names[a]);
                        }
                    }
                },
            }
        }
        i = i + 1;
    }
    assert(todos@.take(i as int) =~= todos@);
    (names, counts)
}

/// Whether `names[b]` is `key` and `counts[b]` is `c` for some `b`.
pub open spec fn has_pair(names: Seq<String>, counts: Seq<usize>, key: Seq<char>, c: usize) -> bool {
    exists|b: int| 0 <= b < names.len() && (#[trigger] names[b])@ == key && counts[b] == c
}

/// Whether some entry of `names` is `key`.
pub open spec fn has_name(names: Seq<String>, key: Seq<char>) -> bool {
    exists|a: int| 0 <= a < names.len() && (#[trigger] names[a])@ == key
}

/// Whether some entry of `tags` has the name `key`.
pub open spec fn has_key(tags: Seq<(String, usize)>, key: Seq<char>) -> bool {
    exists|a: int| 0 <= a < tags.len() && (#[trigger] tags[a]).0@ == key
}

/// Inserts `(name, c)` into the list ordered by decreasing count, after the
/// entries whose count is at least `c`.
fn insert_descending(out: &mut Vec<(String, usize)>, name: String, c: usize) -> (p: usize)
    requires
        forall|a: int, b: int| 0 <= a <= b < old(out)@.len() ==> old(out)@[a].1 >= old(out)@[b].1,
    ensures
        p <= old(out)@.len(),
        final(out)@ == old(out)@.insert(p as int, (name, c)),
        forall|a: int, b: int| 0 <= a <= b < final(out)@.len() ==> final(out)@[a].1 >= final(out)@[b].1,
{
    let mut p: usize = 0;
    while p < out.len() && out[p].1 >= c
        invariant
            p <= out@.len(),
            forall|q: int| 0 <= q < p ==> (#[trigger] out@[q]).1 >= c,
        decreases out@.len() - p,
    {
        p = p + 1;
    }
    let ghost old_out = out@;
    assert forall|q: int| p <= q < old_out.len() implies (#[trigger] old_out[q]).1 < c by {
        assert(old_out[p as int].1 >= old_out[q].1);
    }
    out.insert(p, (name, c));
    assert forall|a: int| 0 <= a < out@.len() implies
        out@[a] == if a < p { old_out[a] } else if a == p { (name, c) } else { old_out[a - 1] } by {}
    assert forall|a: int, b: int| 0 <= a <= b < out@.len() implies out@[a].1 >= out@[b].1 by {
        if a < p && b > p {
            assert(old_out[a].1 >= old_out[b - 1].1);
        } else if a > p {
            assert(old_out[a - 1].1 >= old_out[b - 1].1);
        } else if b < p {
            assert(old_out[a].1 >= old_out[b].1);
        } else if a == p && b > p {
            assert(old_out[b - 1].1 < c);
        }
    }
    p
}

/// Pairs each name with its count, most frequent first; names of equal count
/// come in no promised order.
fn order_by_count(names_in: Vec<String>, counts_in: Vec<usize>) -> (out: Vec<(String, usize)>)
    requires
        names_in@.len() == counts_in@.len(),
        forall|a: int, b: int| 0 <= a < b < names_in@.len() ==> names_in@[a]@ != names_in@[b]@,
    ensures
        out@.len() == names_in@.len(),
        forall|a: int, b: int| 0 <= a < b < out@.len() ==> out@[a].0@ != out@[b].0@,
        forall|a: int| 0 <= a < out@.len() ==> has_pair(names_in@, counts_in@, (#[trigger] out@[a]).0@, out@[a].1),
        forall|b: int| 0 <= b < names_in@.len() ==> has_key(out@, (#[trigger] names_in@[b])@),
        forall|a: int, b: int| 0 <= a <= b < out@.len() ==> out@[a].1 >= out@[b].1,
{
    let ghost on = names_in@;
    let ghost oc = counts_in@;
    let mut names = names_in;
    let mut counts = counts_in;
    let mut out: Vec<(String, usize)> = Vec::new();
    let ghost mut src: Seq<int> = Seq::empty();
    let ghost mut dst: Seq<int> = Seq::new(on.len(), |b: int| 0int);
    while names.len() > 0
        invariant
            names@.len() == counts@.len(),
            on.len() == oc.len(),
            names@ == on.take(names@.len() as int),
            counts@ == oc.take(names@.len() as int),
            out@.len() + names@.len() == on.len(),
            src.len() == out@.len(),
            dst.len() == on.len(),
            forall|a: int, b: int| 0 <= a < b < on.len() ==> on[a]@ != on[b]@,
            forall|a: int, b: int| 0 <= a < b < out@.len() ==> src[a] != src[b],
            forall|a: int| 0 <= a < out@.len() ==> {
                &&& names@.len() <= #[trigger] src[a] < on.len()
                &&& on[src[a]]@ == out@[a].0@
                &&& oc[src[a]] == out@[a].1
            },
            forall|b: int| names@.len() <= b < on.len() ==> {
                &&& 0 <= #[trigger] dst[b] < out@.len()
                &&& out@[dst[b]].0@ == on[b]@
            },
            forall|a: int, b: int| 0 <= a <= b < out@.len() ==> out@[a].1 >= out@[b].1,
        decreases names@.len(),
    {
        let ghost r = (names@.len() - 1) as int;
        let name = names.pop().unwrap();
        let c = counts.pop().unwrap();
        assert(names@ =~= on.take(r));
        assert(counts@ =~= oc.take(r));
        let ghost old_out = out@;
        let ghost old_src = src;
        let ghost old_dst = dst;
        let p = insert_descending(&mut out, name, c);
        proof {
            src = old_src.insert(p as int, r);
            dst = Seq::new(on.len(), |b: int| if b == r { p as int } else if old_dst[b] >= p { old_dst[b] + 1 } else { old_dst[b] });
            assert forall|a: int| 0 <= a < out@.len() implies
                out@[a] == if a < p { old_out[a] } else if a == p { (name, c) } else { old_out[a - 1] } by {}
            assert forall|a: int| 0 <= a < out@.len() implies
                src[a] == if a < p { old_src[a] } else if a == p { r } else { old_src[a - 1] } by {}
            assert forall|a: int, b: int| 0 <= a < b < out@.len() implies src[a] != src[b] by {
                if a < p && b > p {
                    assert(old_src[a] != old_src[b - 1]);
                } else if a > p {
                    assert(old_src[a - 1] != old_src[b - 1]);
                } else if b < p {
                    assert(old_src[a] != old_src[b]);
                } else if a == p {
                    assert(old_src[b - 1] >= r + 1);
                } else {
                    assert(old_src[a] >= r + 1);
                }
            }
        }
    }
    assert forall|a: int, b: int| 0 <= a < b < out@.len() implies out@[a].0@ != out@[b].0@ by {
        assert(on[src[a]]@ == out@[a].0@);
        assert(on[src[b]]@ == out@[b].0@);
        if src[a] < src[b] {
            assert(on[src[a]]@ != on[src[b]]@);
        } else {
            assert(on[src[b]]@ != on[src[a]]@);
        }
    }
    assert forall|a: int| 0 <= a < out@.len() implies has_pair(names_in@, counts_in@, (#[trigger] out@[a]).0@, out@[a].1) by {
        let b = src[a];
        assert(names_in@[b]@ == out@[a].0@);
    }
    assert forall|b: int| 0 <= b < names_in@.len() implies has_key(out@, (#[trigger] names_in@[b])@) by {
        let a = dst[b];
        assert(out@[a].0@ == names_in@[b]@);
    }
    out
}

impl Storage {
    /// Recomputes the tag statistics when they are due: each distinct non-empty
    /// tag of the tasks, with how many tasks carry it, the most used first.
    pub fn rebuild_tags(&mut self)
        ensures
            final(self).todos@ == old(self).todos@,
            final(self).search@ == old(self).search@,
            final(self).filter_tag@ == old(self).filter_tag@,
            final(self).path@ == old(self).path@,
            !final(self).dirty_tags,
            old(self).dirty_tags ==> tag_stats_of(final(self).tags_available@, final(self).todos@),
            !old(self).dirty_tags ==> final(self).tags_available@ == old(self).tags_available@,
    {
        if !self.dirty_tags {
            return;
        }
        let (names, counts) = tally_tags(&self.todos);
        let ghost on = names@;
        let ghost oc = counts@;
        let tags = order_by_count(names, counts);
        let ghost todos = self.todos@;
        assert forall|a: int| 0 <= a < tags@.len() implies {
            &&& (#[trigger] tags@[a]).0@.len() > 0
            &&& tags@[a].1 > 0
            &&& tags@[a].1 == count_tag(todos, tags@[a].0@)
        } by {
            assert(has_pair(on, oc, tags@[a].0@, tags@[a].1));
            let b = choose|b: int| 0 <= b < on.len() && (#[trigger] on[b])@ == tags@[a].0@ && oc[b] == tags@[a].1;
            assert(on[b]@.len() > 0);
        }
        assert forall|k: int| 0 <= k < todos.len() && (#[trigger] todos[k]).tag@.len() > 0 implies
            exists|a: int| 0 <= a < tags@.len() && (#[trigger] tags@[a]).0@ == todos[k].tag@ by {
            assert(has_name(on, todos[k].tag@));
            let b = choose|b: int| 0 <= b < on.len() && (#[trigger] on[b])@ == todos[k].tag@;
            assert(has_key(tags@, on[b]@));
            let a = choose|a: int| 0 <= a < tags@.len() && (#[trigger] tags@[a]).0@ == on[b]@;
        }
        self.tags_available = tags;
        self.dirty_tags = false;
    }
}


/// The most backups of the task file that are kept.
pub const MAX_BACKUPS: usize = 5;

/// The character sequences of strings.
pub open spec fn string_views(v: Seq<String>) -> Seq<Seq<char>> {
    v.map_values(|l: String| l@)
}

/// The fields of each task.
pub open spec fn all_fields(todos: Seq<Todo>) -> Seq<TodoFields> {
    todos.map_values(|t: Todo| fields_of(t))
}

impl Storage {
    /// Replaces the tasks with those that the lines of the task file store
    /// (a line that stores no task is passed over), and marks the tag
    /// statistics for a rebuild.
    pub fn load_lines(&mut self, lines: &Vec<String>)
        ensures
            all_fields(final(self).todos@) == tasks_of_lines(string_views(lines@)),
            final(self).dirty_tags,
            final(self).search == old(self).search,
            final(self).filter_tag == old(self).filter_tag,
            final(self).tags_available == old(self).tags_available,
            final(self).path == old(self).path,
    {
        let ghost ls = string_views(lines@);
        self.todos = Vec::new();
        let mut i: usize = 0;
        while i < lines.len()
            invariant
                i <= lines@.len(),
                ls == string_views(lines@),
                all_fields(self.todos@) == tasks_of_lines(ls.take(i as int)),
                self.search == old(self).search,
                self.filter_tag == old(self).filter_tag,
                self.tags_available == old(self).tags_available,
                self.path == old(self).path,
            decreases lines@.len() - i,
        {
            proof {
                assert(ls.take(i + 1).drop_last() =~= ls.take(i as int));
                assert(ls.take(i + 1).last() == lines@[i as int]@);
            }
            match Todo::from_line(lines[i].as_str()) {
                Some(t) => {
                    let ghost before = self.todos@;
                    self.todos.push(t);
                    assert(all_fields(self.todos@) =~= all_fields(before).push(fields_of(t)));
                },
                None => {},
            }
            i += 1;
        }
        assert(ls.take(lines@.len() as int) =~= ls);
        self.dirty_tags = true;
    }

    /// Replaces the tasks with those that the text of a task file stores,
    /// line by line (as `str::lines` splits it), and marks the tag statistics
    /// for a rebuild. An empty text (no file) leaves no task.
    pub fn load_text(&mut self, text: &str)
        ensures
            all_fields(final(self).todos@) == tasks_of_lines(lines_of(text@)),
            final(self).dirty_tags,
            final(self).search == old(self).search,
            final(self).filter_tag == old(self).filter_tag,
            final(self).tags_available == old(self).tags_available,
            final(self).path == old(self).path,
    {
        let parts = split_lines(text);
        let mut lines: Vec<String> = Vec::new();
        let mut i: usize = 0;
        while i < parts.len()
            invariant
                i <= parts@.len(),
                string_views(lines@) == views(parts@).take(i as int),
            decreases parts@.len() - i,
        {
            let ghost before = lines@;
            let st = string_of(&parts[i]);
            let ghost sv = st@;
            lines.push(st);
            proof {
                let lhs = string_views(lines@);
                let rhs = views(parts@).take(i + 1);
                assert(string_views(before).len() == before.len());
                assert(views(parts@).len() == parts@.len());
                assert(views(parts@).take(i as int).len() == i);
                assert(before.len() == i);
                assert(lines@ == before.push(lines@.last()));
                assert(lhs.len() == rhs.len());
                assert forall|k: int| 0 <= k < lhs.len() implies lhs[k] == rhs[k] by {
                    if k < i {
                        assert(lines@[k] == before[k]);
                        assert(string_views(before)[k] == views(parts@).take(i as int)[k]);
                    } else {
                        assert(lines@[k]@ == sv);
                    }
                }
                assert(lhs =~= rhs);
            }
            i += 1;
        }
        assert(views(parts@).take(parts@.len() as int) =~= views(parts@));
        self.load_lines(&lines);
    }

    /// The text of the task file: the line of each task, in order.
    pub fn file_text(&self) -> (r: String)
        ensures
            r@ == file_of(all_fields(self.todos@)),
    {
        let ghost fs = all_fields(self.todos@);
        let mut out = String::new();
        let mut i: usize = 0;
        while i < self.todos.len()
            invariant
                i <= self.todos@.len(),
                fs == all_fields(self.todos@),
                out@ == file_of(fs.take(i as int)),
            decreases self.todos@.len() - i,
        {
            proof {
                assert(fs.take(i + 1).drop_last() =~= fs.take(i as int));
                assert(fs.take(i + 1).last() == fields_of(self.todos@[i as int]));
            }
            let line = self.todos[i].to_line();
            out.append(line.as_str());
            i += 1;
        }
        assert(fs.take(self.todos@.len() as int) =~= fs);
        out
    }
}

/// The name of backup `n` of a task file whose name has stem `stem` and
/// extension `ext`: `stem.ext.bak.n`, or `stem.bak.n` with no extension.
pub fn backup_name(stem: &str, ext: &str, n: usize) -> (r: String)
    ensures
        r@ == if ext@.len() == 0 {
            stem@ + ".bak."@ + decimal(n as nat)
        } else {
            stem@ + "."@ + ext@ + ".bak."@ + decimal(n as nat)
        },
{
    let mut r = stem.to_owned();
    if ext.unicode_len() > 0 {
        r.append(".");
        r.append(ext);
    }
    r.append(".bak.");
    r.append(crate::text::decimal_string(n).as_str());
    r
}

/// The renames that make room for a new backup, in the order they are done:
/// backup `n - 1` becomes backup `n`, for `n` from the last kept down to 1.
pub fn backup_shifts() -> (r: Vec<(usize, usize)>)
    ensures
        r@.len() == MAX_BACKUPS - 1,
        forall|i: int| 0 <= i < r@.len() ==> (#[trigger] r@[i]) == ((MAX_BACKUPS - 2 - i) as usize, (MAX_BACKUPS - 1 - i) as usize),
{
    let mut r: Vec<(usize, usize)> = Vec::new();
    let mut k: usize = MAX_BACKUPS - 1;
    while k > 0
        invariant
            k <= MAX_BACKUPS - 1,
            r@.len() == MAX_BACKUPS - 1 - k,
            forall|i: int| 0 <= i < r@.len() ==> (#[trigger] r@[i]) == ((MAX_BACKUPS - 2 - i) as usize, (MAX_BACKUPS - 1 - i) as usize),
        decreases k,
    {
        r.push((k - 1, k));
        k -= 1;
    }
    r
}

/// What a read gives back of a write: loading the text that
/// [`Storage::file_text`] gives for some tasks (with [`Storage::load_text`])
/// gives back those tasks, field for field and in their order.
pub proof fn lemma_save_then_load(todos: Seq<Todo>)
    ensures
        tasks_of_lines(lines_of(file_of(all_fields(todos)))) == all_fields(todos),
{
    lemma_file_roundtrip(all_fields(todos));
}
} // verus!
