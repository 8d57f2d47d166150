//! Localisation: the texts of each language, looked up by key, with English
//! as the fallback for whatever a language leaves out.

use vstd::prelude::*;
use crate::text::{same_text, strip_prefix, strip_prefix_str, lex_lt, lex_less, lemma_lex_asym, lemma_lex_total, lemma_lex_trans, trimmed, trim_str, is_white, lemma_trim_plain};

verus! {

/// The text for `key` in a list of key/text pairs: the first pair with that key.
pub open spec fn lookup(entries: Seq<(Seq<char>, Seq<char>)>, key: Seq<char>) -> Option<Seq<char>>
    decreases entries.len(),
{
    if entries.len() == 0 {
        None
    } else if entries[0].0 == key {
        Some(entries[0].1)
    } else {
        lookup(entries.drop_first(), key)
    }
}

/// A table of texts by key, such as one section of a language file.
pub struct TextTable {
    pub entries: Vec<(String, String)>,
}

impl View for TextTable {
    type V = Seq<(Seq<char>, Seq<char>)>;

    open spec fn view(&self) -> Seq<(Seq<char>, Seq<char>)> {
        self.entries@.map_values(|e: (String, String)| (e.0@, e.1@))
    }
}

proof fn lemma_lookup_skip(entries: Seq<(Seq<char>, Seq<char>)>, key: Seq<char>, i: int)
    requires
        0 <= i <= entries.len(),
        forall|j: int| 0 <= j < i ==> (#[trigger] entries[j]).0 != key,
    ensures
        lookup(entries, key) == lookup(entries.skip(i), key),
    decreases i,
{
    if i > 0 {
        assert(entries[0].0 != key);
        assert forall|j: int| 0 <= j < i - 1 implies (#[trigger] entries.drop_first()[j]).0 != key by {
            assert(entries.drop_first()[j] == entries[j + 1]);
        }
        lemma_lookup_skip(entries.drop_first(), key, i - 1);
        assert(entries.drop_first().skip(i - 1) =~= entries.skip(i));
    } else {
        assert(entries.skip(0) =~= entries);
    }
}

proof fn lemma_lookup_update(entries: Seq<(Seq<char>, Seq<char>)>, i: int, key: Seq<char>, value: Seq<char>, k: Seq<char>)
    requires
        0 <= i < entries.len(),
        entries[i].0 == key,
        forall|j: int| 0 <= j < i ==> (#[trigger] entries[j]).0 != key,
    ensures
        lookup(entries.update(i, (key, value)), k) == if k == key { Some(value) } else { lookup(entries, k) },
    decreases i,
{
    let u = entries.update(i, (key, value));
    if i == 0 {
        assert(u.drop_first() =~= entries.drop_first());
    } else {
        assert(u.drop_first() =~= entries.drop_first().update(i - 1, (key, value)));
        assert forall|j: int| 0 <= j < i - 1 implies (#[trigger] entries.drop_first()[j]).0 != key by {
            assert(entries.drop_first()[j] == entries[j + 1]);
        }
        lemma_lookup_update(entries.drop_first(), i - 1, key, value, k);
    }
}

proof fn lemma_lookup_push(entries: Seq<(Seq<char>, Seq<char>)>, key: Seq<char>, value: Seq<char>, k: Seq<char>)
    requires
        forall|j: int| 0 <= j < entries.len() ==> (#[trigger] entries[j]).0 != key,
    ensures
        lookup(entries.push((key, value)), k) == if k == key { Some(value) } else { lookup(entries, k) },
    decreases entries.len(),
{
    if entries.len() > 0 {
        assert(entries.push((key, value)).drop_first() =~= entries.drop_first().push((key, value)));
        assert forall|j: int| 0 <= j < entries.drop_first().len() implies (#[trigger] entries.drop_first()[j]).0 != key by {
            assert(entries.drop_first()[j] == entries[j + 1]);
        }
        lemma_lookup_push(entries.drop_first(), key, value, k);
    } else {
        assert(entries.push((key, value)).drop_first() =~= entries);
    }
}

impl TextTable {
    /// An empty table.
    pub fn new() -> (t: TextTable)
        ensures
            t@ == Seq::<(Seq<char>, Seq<char>)>::empty(),
    {
        TextTable { entries: Vec::new() }
    }

    /// Whether the table holds no entry.
    pub fn is_empty(&self) -> (r: bool)
        ensures
            r == (self@.len() == 0),
    {
        self.entries.len() == 0
    }

    /// The position of the first entry with key `key`.
    fn position(&self, key: &str) -> (r: Option<usize>)
        ensures
            r matches Some(i) ==> i < self@.len() && self@[i as int].0 == key@
                && forall|j: int| 0 <= j < i ==> (#[trigger] self@[j]).0 != key@,
            r is None ==> forall|j: int| 0 <= j < self@.len() ==> (#[trigger] self@[j]).0 != key@,
    {
        let mut i: usize = 0;
        while i < self.entries.len()
            invariant
                i <= self@.len(),
                self@.len() == self.entries@.len(),
                forall|j: int| 0 <= j < i ==> (#[trigger] self@[j]).0 != key@,
            decreases self@.len() - i,
        {
            assert(self@[i as int] == (self.entries@[i as int].0@, self.entries@[i as int].1@));
            if same_text(self.entries[i].0.as_str(), key) {
                return Some(i);
            }
            i = i + 1;
        }
        None
    }

    /// The text for `key`, if the table has one.
    pub fn get(&self, key: &str) -> (r: Option<&str>)
        ensures
            r matches Some(v) ==> lookup(self@, key@) == Some(v@),
            r is None ==> lookup(self@, key@) is None,
    {
        match self.position(key) {
            Some(i) => {
                proof {
                    lemma_lookup_skip(self@, key@, i as int);
                    assert(self@.skip(i as int)[0] == self@[i as int]);
                }
                Some(self.entries[i].1.as_str())
            },
            None => {
                proof {
                    lemma_lookup_skip(self@, key@, self@.len() as int);
                    assert(self@.skip(self@.len() as int) =~= Seq::<(Seq<char>, Seq<char>)>::empty());
                }
                None
            },
        }
    }

    /// Sets the text for `key`, replacing the one it had.
    pub fn insert(&mut self, key: &str, value: &str)
        ensures
            forall|k: Seq<char>| #[trigger] lookup(final(self)@, k) == if k == key@ {
                Some(value@)
            } else {
                lookup(old(self)@, k)
            },
    {
        match self.position(key) {
            Some(i) => {
                let ghost before = self@;
                let name = self.entries[i].0.clone();
                self.entries.set(i, (name, value.to_owned()));
                proof {
                    assert(self@ =~= before.update(i as int, (key@, value@)));
                    assert forall|k: Seq<char>| #[trigger] lookup(self@, k) == if k == key@ {
                        Some(value@)
                    } else {
                        lookup(before, k)
                    } by {
                        lemma_lookup_update(before, i as int, key@, value@, k);
                    }
                }
            },
            None => {
                let ghost before = self@;
                self.entries.push((key.to_owned(), value.to_owned()));
                proof {
                    assert(self@ =~= before.push((key@, value@)));
                    assert forall|k: Seq<char>| #[trigger] lookup(self@, k) == if k == key@ {
                        Some(value@)
                    } else {
                        lookup(before, k)
                    } by {
                        lemma_lookup_push(before, key@, value@, k);
                    }
                }
            },
        }
    }

    /// A copy of the table.
    pub fn duplicate(&self) -> (t: TextTable)
        ensures
            t@ == self@,
    {
        let mut entries: Vec<(String, String)> = Vec::new();
        let mut i: usize = 0;
        while i < self.entries.len()
            invariant
                i <= self.entries@.len(),
                entries@.map_values(|e: (String, String)| (e.0@, e.1@))
                    == self@.take(i as int),
            decreases self.entries@.len() - i,
        {
            let ghost before = entries@;
            entries.push((self.entries[i].0.clone(), self.entries[i].1.clone()));
            assert(entries@.map_values(|e: (String, String)| (e.0@, e.1@))
                =~= before.map_values(|e: (String, String)| (e.0@, e.1@)).push(self@[i as int]));
            assert(self@.take(i + 1) =~= self@.take(i as int).push(self@[i as int]));
            i = i + 1;
        }
        assert(self@.take(i as int) =~= self@);
        TextTable { entries }
    }
}


/// How many texts a language names outside its tables.
pub const NAMED_COUNT: usize = 54;

/// The key of the `i`-th named text of a language.
pub open spec fn named_key(i: int) -> Seq<char> {
    if i == 0 {
        "created_prefix"@
    } else if i == 1 {
        "done_prefix"@
    } else if i == 2 {
        "pinned_marker"@
    } else if i == 3 {
        "selected_header"@
    } else if i == 4 {
        "tags_header"@
    } else if i == 5 {
        "stats_header"@
    } else if i == 6 {
        "mood_all_done"@
    } else if i == 7 {
        "mood_empty"@
    } else if i == 8 {
        "mood_one"@
    } else if i == 9 {
        "mood_few"@
    } else if i == 10 {
        "mood_several"@
    } else if i == 11 {
        "mood_many"@
    } else if i == 12 {
        "popup_new_title"@
    } else if i == 13 {
        "popup_new_hint"@
    } else if i == 14 {
        "popup_edit_title"@
    } else if i == 15 {
        "popup_edit_hint"@
    } else if i == 16 {
        "popup_set_tag_title"@
    } else if i == 17 {
        "popup_set_tag_hint_existing"@
    } else if i == 18 {
        "popup_set_tag_hint_empty"@
    } else if i == 19 {
        "popup_delete_confirm"@
    } else if i == 20 {
        "popup_delete_all_confirm"@
    } else if i == 21 {
        "popup_delete_all_warning"@
    } else if i == 22 {
        "popup_search_title"@
    } else if i == 23 {
        "popup_search_hint"@
    } else if i == 24 {
        "popup_help_title"@
    } else if i == 25 {
        "popup_help_hint"@
    } else if i == 26 {
        "help_content"@
    } else if i == 27 {
        "statusbar_hint_wide"@
    } else if i == 28 {
        "statusbar_hint_medium"@
    } else if i == 29 {
        "statusbar_hint_narrow"@
    } else if i == 30 {
        "progress_label"@
    } else if i == 31 {
        "column_header"@
    } else if i == 32 {
        "scroll_up"@
    } else if i == 33 {
        "scroll_down"@
    } else if i == 34 {
        "topbar_title"@
    } else if i == 35 {
        "topbar_filter_prefix"@
    } else if i == 36 {
        "topbar_search_prefix"@
    } else if i == 37 {
        "topbar_date_format"@
    } else if i == 38 {
        "title"@
    } else if i == 39 {
        "right_title"@
    } else if i == 40 {
        "celebration_line1"@
    } else if i == 41 {
        "celebration_line2"@
    } else if i == 42 {
        "celebration_line3"@
    } else if i == 43 {
        "celebration_line4"@
    } else if i == 44 {
        "celebration_line5"@
    } else if i == 45 {
        "celebration_line6"@
    } else if i == 46 {
        "empty_list_line1"@
    } else if i == 47 {
        "empty_list_line2"@
    } else if i == 48 {
        "popup_due_date_title"@
    } else if i == 49 {
        "popup_due_date_hint"@
    } else if i == 50 {
        "popup_due_time_hint"@
    } else if i == 51 {
        "due_date_cleared"@
    } else if i == 52 {
        "due_date_set"@
    } else if i == 53 {
        "due_date_invalid"@
    } else {
        Seq::empty()
    }
}

/// The key of the `i`-th named text of a language.
pub fn named_key_str(i: usize) -> (k: &'static str)
    requires
        i < NAMED_COUNT,
    ensures
        k@ == named_key(i as int),
{
    match i {
        0 => "created_prefix",
        1 => "done_prefix",
        2 => "pinned_marker",
        3 => "selected_header",
        4 => "tags_header",
        5 => "stats_header",
        6 => "mood_all_done",
        7 => "mood_empty",
        8 => "mood_one",
        9 => "mood_few",
        10 => "mood_several",
        11 => "mood_many",
        12 => "popup_new_title",
        13 => "popup_new_hint",
        14 => "popup_edit_title",
        15 => "popup_edit_hint",
        16 => "popup_set_tag_title",
        17 => "popup_set_tag_hint_existing",
        18 => "popup_set_tag_hint_empty",
        19 => "popup_delete_confirm",
        20 => "popup_delete_all_confirm",
        21 => "popup_delete_all_warning",
        22 => "popup_search_title",
        23 => "popup_search_hint",
        24 => "popup_help_title",
        25 => "popup_help_hint",
        26 => "help_content",
        27 => "statusbar_hint_wide",
        28 => "statusbar_hint_medium",
        29 => "statusbar_hint_narrow",
        30 => "progress_label",
        31 => "column_header",
        32 => "scroll_up",
        33 => "scroll_down",
        34 => "topbar_title",
        35 => "topbar_filter_prefix",
        36 => "topbar_search_prefix",
        37 => "topbar_date_format",
        38 => "title",
        39 => "right_title",
        40 => "celebration_line1",
        41 => "celebration_line2",
        42 => "celebration_line3",
        43 => "celebration_line4",
        44 => "celebration_line5",
        45 => "celebration_line6",
        46 => "empty_list_line1",
        47 => "empty_list_line2",
        48 => "popup_due_date_title",
        49 => "popup_due_date_hint",
        50 => "popup_due_time_hint",
        51 => "due_date_cleared",
        52 => "due_date_set",
        53 => "due_date_invalid",
        _ => "due_date_invalid",
    }
}

/// The named text for `key`, searching the names from position `i` on.
pub open spec fn named_from(named: Seq<String>, key: Seq<char>, i: int) -> Option<Seq<char>>
    decreases NAMED_COUNT - i,
{
    if i < 0 || i >= NAMED_COUNT || i >= named.len() {
        None
    } else if named_key(i) == key {
        Some(named[i]@)
    } else {
        named_from(named, key, i + 1)
    }
}

/// A text found in a table section whose keys are written `prefix` + key.
pub open spec fn section(table: Seq<(Seq<char>, Seq<char>)>, key: Seq<char>, prefix: Seq<char>) -> Option<Seq<char>> {
    match strip_prefix(key, prefix) {
        Some(rest) => lookup(table, rest),
        None => None,
    }
}

/// The texts of one language.
pub struct Localization {
    pub ui: TextTable,
    pub pending: TextTable,
    pub done: TextTable,
    pub pinned: TextTable,
    pub total: TextTable,
    pub messages: TextTable,
    pub extra: TextTable,
    /// The named texts, in the order of [`named_key_str`].
    pub named: Vec<String>,
}

/// What a language holds: its seven tables (ui, pending, done, pinned, total,
/// messages, other texts) and its named texts.
pub type LocalizationView = (Seq<Seq<(Seq<char>, Seq<char>)>>, Seq<Seq<char>>);

impl View for Localization {
    type V = LocalizationView;

    open spec fn view(&self) -> LocalizationView {
        (
            seq![self.ui@, self.pending@, self.done@, self.pinned@, self.total@, self.messages@, self.extra@],
            self.named@.map_values(|s: String| s@),
        )
    }
}

/// A language filled in from a default: each empty table or text taken from it.
pub open spec fn fill_view(mine: LocalizationView, default: LocalizationView) -> LocalizationView {
    (
        Seq::new(mine.0.len(), |t: int| filled_table(mine.0[t], default.0[t])),
        Seq::new(mine.1.len(), |i: int| filled(mine.1[i], default.1[i])),
    )
}

/// The text that a language gives for `key`: from the `ui` table, from a
/// section selected by the key's prefix, from the other texts of the file, or
/// from the named texts, in that order.
pub open spec fn loc_get(loc: Localization, key: Seq<char>) -> Option<Seq<char>> {
    if lookup(loc.ui@, key) is Some {
        lookup(loc.ui@, key)
    } else if section(loc.pending@, key, "pending."@) is Some {
        section(loc.pending@, key, "pending."@)
    } else if section(loc.done@, key, "done."@) is Some {
        section(loc.done@, key, "done."@)
    } else if section(loc.pinned@, key, "pinned."@) is Some {
        section(loc.pinned@, key, "pinned."@)
    } else if section(loc.total@, key, "total."@) is Some {
        section(loc.total@, key, "total."@)
    } else if section(loc.messages@, key, "messages."@) is Some {
        section(loc.messages@, key, "messages."@)
    } else if lookup(loc.extra@, key) is Some {
        lookup(loc.extra@, key)
    } else {
        named_from(loc.named@, key, 0)
    }
}

/// A text of a language after filling it in from a default: its own unless empty.
pub open spec fn filled(mine: Seq<char>, default: Seq<char>) -> Seq<char> {
    if mine.len() == 0 { default } else { mine }
}

/// A table of a language after filling it in from a default: its own unless empty.
pub open spec fn filled_table(mine: Seq<(Seq<char>, Seq<char>)>, default: Seq<(Seq<char>, Seq<char>)>) -> Seq<(Seq<char>, Seq<char>)> {
    if mine.len() == 0 { default } else { mine }
}

impl Localization {
    /// A language is whole when it has every named text.
    pub open spec fn wf(&self) -> bool {
        self.named@.len() == NAMED_COUNT
    }

    /// A language with no texts at all.
    pub fn blank() -> (l: Localization)
        ensures
            l.wf(),
            l.ui@.len() == 0 && l.pending@.len() == 0 && l.done@.len() == 0 && l.pinned@.len() == 0,
            l.total@.len() == 0 && l.messages@.len() == 0 && l.extra@.len() == 0,
            forall|i: int| 0 <= i < NAMED_COUNT ==> (#[trigger] l.named@[i])@.len() == 0,
    {
        let mut named: Vec<String> = Vec::new();
        let mut i: usize = 0;
        while i < NAMED_COUNT
            invariant
                i <= NAMED_COUNT,
                named@.len() == i,
                forall|j: int| 0 <= j < i ==> (#[trigger] named@[j])@.len() == 0,
            decreases NAMED_COUNT - i,
        {
            named.push(String::new());
            i = i + 1;
        }
        Localization {
            ui: TextTable::new(),
            pending: TextTable::new(),
            done: TextTable::new(),
            pinned: TextTable::new(),
            total: TextTable::new(),
            messages: TextTable::new(),
            extra: TextTable::new(),
            named,
        }
    }

    /// A copy of the language.
    pub fn duplicate(&self) -> (l: Localization)
        ensures
            l.ui@ == self.ui@ && l.pending@ == self.pending@ && l.done@ == self.done@,
            l.pinned@ == self.pinned@ && l.total@ == self.total@ && l.messages@ == self.messages@,
            l.extra@ == self.extra@,
            l.named@.len() == self.named@.len(),
            forall|i: int| 0 <= i < self.named@.len() ==> (#[trigger] l.named@[i])@ == self.named@[i]@,
            l@ == self@,
    {
        let mut named: Vec<String> = Vec::new();
        let mut i: usize = 0;
        while i < self.named.len()
            invariant
                i <= self.named@.len(),
                named@.len() == i,
                forall|j: int| 0 <= j < i ==> (#[trigger] named@[j])@ == self.named@[j]@,
            decreases self.named@.len() - i,
        {
            named.push(self.named[i].clone());
            i = i + 1;
        }
        let l = Localization {
            ui: self.ui.duplicate(),
            pending: self.pending.duplicate(),
            done: self.done.duplicate(),
            pinned: self.pinned.duplicate(),
            total: self.total.duplicate(),
            messages: self.messages.duplicate(),
            extra: self.extra.duplicate(),
            named,
        };
        assert(l@.1 =~= self@.1);
        assert(l@.0 =~= self@.0);
        l
    }

    /// Fills every text and table this language leaves empty from `default`.
    pub fn fill_missing(&mut self, default: &Localization)
        requires
            old(self).wf(),
            default.wf(),
        ensures
            final(self).wf(),
            forall|i: int| 0 <= i < NAMED_COUNT ==>
                (#[trigger] final(self).named@[i])@ == filled(old(self).named@[i]@, default.named@[i]@),
            final(self).ui@ == filled_table(old(self).ui@, default.ui@),
            final(self).pending@ == filled_table(old(self).pending@, default.pending@),
            final(self).done@ == filled_table(old(self).done@, default.done@),
            final(self).pinned@ == filled_table(old(self).pinned@, default.pinned@),
            final(self).total@ == filled_table(old(self).total@, default.total@),
            final(self).messages@ == filled_table(old(self).messages@, default.messages@),
            final(self).extra@ == filled_table(old(self).extra@, default.extra@),
            final(self)@ == fill_view(old(self)@, default@),
    {
        let ghost before = self.named@;
        let mut i: usize = 0;
        while i < NAMED_COUNT
            invariant
                i <= NAMED_COUNT,
                self.named@.len() == NAMED_COUNT,
                before.len() == NAMED_COUNT,
                default.named@.len() == NAMED_COUNT,
                forall|j: int| 0 <= j < i ==> (#[trigger] self.named@[j])@ == filled(before[j]@, default.named@[j]@),
                forall|j: int| i <= j < NAMED_COUNT ==> #[trigger] self.named@[j] == before[j],
                self.ui@ == old(self).ui@ && self.pending@ == old(self).pending@,
                self.done@ == old(self).done@ && self.pinned@ == old(self).pinned@,
                self.total@ == old(self).total@ && self.messages@ == old(self).messages@,
                self.extra@ == old(self).extra@,
            decreases NAMED_COUNT - i,
        {
            if self.named[i].as_str().is_empty() {
                self.named.set(i, default.named[i].clone());
            }
            i = i + 1;
        }
        if self.ui.is_empty() {
            self.ui = default.ui.duplicate();
        }
        if self.pending.is_empty() {
            self.pending = default.pending.duplicate();
        }
        if self.done.is_empty() {
            self.done = default.done.duplicate();
        }
        if self.pinned.is_empty() {
            self.pinned = default.pinned.duplicate();
        }
        if self.total.is_empty() {
            self.total = default.total.duplicate();
        }
        if self.messages.is_empty() {
            self.messages = default.messages.duplicate();
        }
        if self.extra.is_empty() {
            self.extra = default.extra.duplicate();
        }
        assert(self@.1 =~= fill_view(old(self)@, default@).1);
        assert(self@.0 =~= fill_view(old(self)@, default@).0);
    }
}

/// Filling a language in from a default a second time changes nothing:
/// what the first filling left empty, the default had empty too.
pub proof fn lemma_fill_idempotent(mine: LocalizationView, default: LocalizationView)
    ensures
        fill_view(fill_view(mine, default), default) == fill_view(mine, default),
{
    let once = fill_view(mine, default);
    let twice = fill_view(once, default);
    assert(twice.0 =~= once.0);
    assert(twice.1 =~= once.1);
}

/// The named text for `key`.
fn named_lookup<'a>(named: &'a Vec<String>, key: &str) -> (r: Option<&'a str>)
    requires
        named@.len() == NAMED_COUNT,
    ensures
        r matches Some(v) ==> named_from(named@, key@, 0) == Some(v@),
        r is None ==> named_from(named@, key@, 0) is None,
{
    let mut i: usize = 0;
    while i < NAMED_COUNT
        invariant
            i <= NAMED_COUNT,
            named@.len() == NAMED_COUNT,
            named_from(named@, key@, 0) == named_from(named@, key@, i as int),
        decreases NAMED_COUNT - i,
    {
        if same_text(key, named_key_str(i)) {
            return Some(named[i].as_str());
        }
        i = i + 1;
    }
    None
}

/// Whether `code` is the code of English, the fallback language.
pub open spec fn is_en(code: Seq<char>) -> bool {
    code == "en"@
}

/// The order of the languages: English first, the others by code.
pub open spec fn lang_before(a: Seq<char>, b: Seq<char>) -> bool {
    if is_en(a) {
        !is_en(b)
    } else if is_en(b) {
        false
    } else {
        lex_lt(a, b)
    }
}

proof fn lemma_lang_order(a: Seq<char>, b: Seq<char>, c: Seq<char>)
    ensures
        !(lang_before(a, b) && lang_before(b, a)),
        a != b ==> lang_before(a, b) || lang_before(b, a),
        lang_before(a, b) && lang_before(b, c) ==> lang_before(a, c),
{
    lemma_lex_asym(a, b);
    if a != b {
        lemma_lex_total(a, b);
    }
    if lang_before(a, b) && lang_before(b, c) && !is_en(a) {
        lemma_lex_trans(a, b, c);
    }
}

/// Why no set of languages could be built.
pub enum I18nError {
    /// No language has the code `en`.
    EnglishMissing,
}

/// Whether some language of `langs` has the code `code`.
pub open spec fn has_code(langs: Seq<(String, Localization)>, code: Seq<char>) -> bool {
    exists|b: int| 0 <= b < langs.len() && (#[trigger] langs[b]).0@ == code
}

/// Whether a language of the result, with code `code` and texts `loc`, comes
/// from the input `langs`: English as given, any other filled in from English.
pub open spec fn comes_from(langs: Seq<(String, Localization)>, code: Seq<char>, loc: LocalizationView, en: LocalizationView) -> bool {
    exists|b: int| 0 <= b < langs.len() && (#[trigger] langs[b]).0@ == code
        && loc == if is_en(code) { langs[b].1@ } else { fill_view(langs[b].1@, en) }
}

/// The languages the interface can show, the one it shows, and the English
/// texts that stand in for anything a language leaves out.
pub struct I18n {
    pub languages: Vec<(String, Localization)>,
    pub current_index: usize,
    pub default_loc: Localization,
}

/// The text shown for `key`: the current language's, else the default's, else `???`.
pub open spec fn text_for(i: I18n, key: Seq<char>) -> Seq<char> {
    match loc_get(i.languages@[i.current_index as int].1, key) {
        Some(v) => v,
        None => match loc_get(i.default_loc, key) {
            Some(v) => v,
            None => "???"@,
        },
    }
}

/// Position of the language `code` in `langs`, if any.
fn find_code(langs: &Vec<(String, Localization)>, code: &str) -> (r: Option<usize>)
    ensures
        r matches Some(i) ==> i < langs@.len() && langs@[i as int].0@ == code@
            && forall|j: int| 0 <= j < i ==> (#[trigger] langs@[j]).0@ != code@,
        r is None ==> forall|j: int| 0 <= j < langs@.len() ==> (#[trigger] langs@[j]).0@ != code@,
{
    let mut i: usize = 0;
    while i < langs.len()
        invariant
            i <= langs@.len(),
            forall|j: int| 0 <= j < i ==> (#[trigger] langs@[j]).0@ != code@,
        decreases langs@.len() - i,
    {
        if same_text(langs[i].0.as_str(), code) {
            return Some(i);
        }
        i = i + 1;
    }
    None
}

/// Inserts a language at its place in the language order.
fn insert_language(out: &mut Vec<(String, Localization)>, code: String, loc: Localization) -> (p: usize)
    requires
        forall|a: int, b: int| 0 <= a < b < old(out)@.len() ==> lang_before(old(out)@[a].0@, old(out)@[b].0@),
        forall|a: int| 0 <= a < old(out)@.len() ==> (#[trigger] old(out)@[a]).0@ != code@,
    ensures
        p <= old(out)@.len(),
        final(out)@ == old(out)@.insert(p as int, (code, loc)),
        forall|a: int, b: int| 0 <= a < b < final(out)@.len() ==> lang_before(final(out)@[a].0@, final(out)@[b].0@),
{
    let mut p: usize = 0;
    while p < out.len() && !lang_less(out[p].0.as_str(), code.as_str())
        invariant
            p <= out@.len(),
            forall|q: int| 0 <= q < out@.len() ==> (#[trigger] out@[q]).0@ != code@,
            forall|q: int| 0 <= q < p ==> lang_before((#[trigger] out@[q]).0@, code@),
        decreases out@.len() - p,
    {
        proof {
            lemma_lang_order(out@[p as int].0@, code@, code@);
        }
        p = p + 1;
    }
    let ghost old_out = out@;
    assert forall|q: int| p <= q < old_out.len() implies lang_before(code@, (#[trigger] old_out[q]).0@) by {
        if q > p {
            lemma_lang_order(code@, old_out[p as int].0@, old_out[q].0@);
        }
    }
    out.insert(p, (code, loc));
    assert forall|a: int| 0 <= a < out@.len() implies
        out@[a] == if a < p { old_out[a] } else if a == p { (code, loc) } else { old_out[a - 1] } by {}
    assert forall|a: int, b: int| 0 <= a < b < out@.len() implies lang_before(out@[a].0@, out@[b].0@) by {
        if a < p && b == p {
        } else if a == p && b > p {
        } else if a < p && b > p {
            assert(lang_before(old_out[a].0@, old_out[b - 1].0@));
        } else if a > p {
            assert(lang_before(old_out[a - 1].0@, old_out[b - 1].0@));
        } else {
            assert(lang_before(old_out[a].0@, old_out[b].0@));
        }
    }
    p
}

/// Whether the language `a` comes after `b` in the language order, so that
/// `b` goes before it.
fn lang_less(a: &str, b: &str) -> (r: bool)
    ensures
        r == lang_before(b@, a@),
{
    let a_en = same_text(a, "en");
    let b_en = same_text(b, "en");
    if b_en {
        !a_en
    } else if a_en {
        false
    } else {
        lex_less(b, a)
    }
}

impl I18n {
    /// A usable set of languages: at least one, the current one among them,
    /// and every language whole.
    pub open spec fn wf(&self) -> bool {
        &&& self.languages@.len() > 0
        &&& self.current_index < self.languages@.len()
        &&& forall|i: int| 0 <= i < self.languages@.len() ==> (#[trigger] self.languages@[i]).1.wf()
        &&& self.default_loc.wf()
    }

    /// Builds the set of languages from the loaded ones, each with a distinct
    /// code: English as given, every other language filled in from English,
    /// English first and the others by code; English is also the default.
    /// Fails when there is no English.
    pub fn from_languages(all: Vec<(String, Localization)>) -> (r: Result<I18n, I18nError>)
        requires
            forall|i: int| 0 <= i < all@.len() ==> (#[trigger] all@[i]).1.wf(),
            forall|i: int, j: int| 0 <= i < j < all@.len() ==> all@[i].0@ != all@[j].0@,
        ensures
            r is Err <==> !has_code(all@, "en"@),
            r matches Ok(i) ==> {
                &&& i.wf()
                &&& i.current_index == 0
                &&& i.languages@.len() == all@.len()
                &&& is_en(i.languages@[0].0@)
                &&& forall|a: int, b: int| 0 <= a < b < i.languages@.len() ==>
                    lang_before(i.languages@[a].0@, i.languages@[b].0@)
                &&& forall|b: int| 0 <= b < all@.len() ==> has_code(i.languages@, (#[trigger] all@[b]).0@)
                &&& forall|a: int| 0 <= a < i.languages@.len() ==>
                    comes_from(all@, (#[trigger] i.languages@[a]).0@, i.languages@[a].1@, i.default_loc@)
                &&& exists|b: int| 0 <= b < all@.len() && is_en((#[trigger] all@[b]).0@) && i.default_loc@ == all@[b].1@
            },
    {
        let e = match find_code(&all, "en") {
            Some(e) => e,
            None => {
                assert(!has_code(all@, "en"@));
                return Err(I18nError::EnglishMissing);
            },
        };
        let en_loc = all[e].1.duplicate();
        let ghost orig = all@;
        let mut rest = all;
        let mut out: Vec<(String, Localization)> = Vec::new();
        let ghost mut src: Seq<int> = Seq::empty();
        let ghost mut dst: Seq<int> = Seq::new(orig.len(), |b: int| 0int);
        while rest.len() > 0
            invariant
                rest@ == orig.take(rest@.len() as int),
                out@.len() + rest@.len() == orig.len(),
                src.len() == out@.len(),
                dst.len() == orig.len(),
                en_loc.wf(),
                en_loc@ == orig[e as int].1@,
                is_en(orig[e as int].0@),
                e < orig.len(),
                forall|i: int| 0 <= i < orig.len() ==> (#[trigger] orig[i]).1.wf(),
                forall|i: int, j: int| 0 <= i < j < orig.len() ==> orig[i].0@ != orig[j].0@,
                forall|a: int, b: int| 0 <= a < b < out@.len() ==> lang_before(out@[a].0@, out@[b].0@),
                forall|a: int| 0 <= a < out@.len() ==> {
                    &&& rest@.len() <= #[trigger] src[a] < orig.len()
                    &&& orig[src[a]].0@ == out@[a].0@
                    &&& out@[a].1.wf()
                    &&& out@[a].1@ == if is_en(out@[a].0@) { orig[src[a]].1@ } else { fill_view(orig[src[a]].1@, en_loc@) }
                },
                forall|b: int| rest@.len() <= b < orig.len() ==> {
                    &&& 0 <= #[trigger] dst[b] < out@.len()
                    &&& out@[dst[b]].0@ == orig[b].0@
                },
            decreases rest@.len(),
        {
            let ghost r = (rest@.len() - 1) as int;
            let (code, mut loc) = rest.pop().unwrap();
            assert(rest@ =~= orig.take(r));
            assert(code == orig[r].0 && loc == orig[r].1);
            if !same_text(code.as_str(), "en") {
                loc.fill_missing(&en_loc);
            } else {
                assert(orig[r].0@ == orig[e as int].0@);
                assert(r == e);
            }
            assert forall|a: int| 0 <= a < out@.len() implies (#[trigger] out@[a]).0@ != code@ by {
                assert(orig[src[a]].0@ != orig[r].0@);
            }
            let ghost old_out = out@;
            let ghost old_src = src;
            let ghost old_dst = dst;
            let p = insert_language(&mut out, code, loc);
            proof {
                src = old_src.insert(p as int, r);
                dst = Seq::new(orig.len(), |b: int| if b == r { p as int } else if old_dst[b] >= p { old_dst[b] + 1 } else { old_dst[b] });
                assert forall|a: int| 0 <= a < out@.len() implies
                    out@[a] == if a < p { old_out[a] } else if a == p { old_out.insert(p as int, out@[p as int])[p as int] } else { old_out[a - 1] } by {}
                assert forall|a: int| 0 <= a < out@.len() implies
                    src[a] == if a < p { old_src[a] } else if a == p { r } else { old_src[a - 1] } by {}
            }
        }
        let languages = out;
        let ghost langs = languages@;
        assert forall|b: int| 0 <= b < orig.len() implies has_code(langs, (#[trigger] orig[b]).0@) by {
            assert(langs[dst[b]].0@ == orig[b].0@);
        }
        assert forall|a: int| 0 <= a < langs.len() implies
            comes_from(orig, (#[trigger] langs[a]).0@, langs[a].1@, en_loc@) by {
            assert(orig[src[a]].0@ == langs[a].0@);
        }
        assert forall|a: int| 0 <= a < langs.len() implies (#[trigger] langs[a]).1.wf() by {
            assert(orig[src[a]].0@ == langs[a].0@);
        }
        // English is first: it comes before every other code
        let ghost en_pos = dst[e as int];
        assert(langs[en_pos].0@ == orig[e as int].0@);
        proof {
            if en_pos > 0 {
                assert(lang_before(langs[0].0@, langs[en_pos].0@));
            }
        }
        let i18n = I18n { languages, current_index: 0, default_loc: en_loc };
        Ok(i18n)
    }

    /// The code of the language shown.
    pub fn current_code(&self) -> (c: &str)
        requires
            self.wf(),
        ensures
            c@ == self.languages@[self.current_index as int].0@,
    {
        self.languages[self.current_index].0.as_str()
    }

    /// Shows the language with code `code`, if there is one; says whether there was.
    pub fn set_language_by_code(&mut self, code: &str) -> (found: bool)
        requires
            old(self).wf(),
        ensures
            final(self).wf(),
            final(self).languages@ == old(self).languages@,
            final(self).default_loc == old(self).default_loc,
            found == has_code(old(self).languages@, code@),
            found ==> final(self).languages@[final(self).current_index as int].0@ == code@
                && forall|j: int| 0 <= j < final(self).current_index ==> (#[trigger] old(self).languages@[j]).0@ != code@,
            !found ==> final(self).current_index == old(self).current_index,
    {
        match find_code(&self.languages, code) {
            Some(i) => {
                self.current_index = i;
                true
            },
            None => false,
        }
    }

    /// Shows the language whose code the saved text `saved` holds (white space
    /// around it dropped), if there is one; says whether there was.
    pub fn restore_language(&mut self, saved: &str) -> (found: bool)
        requires
            old(self).wf(),
        ensures
            final(self).wf(),
            final(self).languages@ == old(self).languages@,
            final(self).default_loc == old(self).default_loc,
            found == has_code(old(self).languages@, trimmed(saved@)),
            found ==> final(self).languages@[final(self).current_index as int].0@ == trimmed(saved@),
            !found ==> final(self).current_index == old(self).current_index,
    {
        let code = trim_str(saved);
        self.set_language_by_code(code.as_str())
    }

    /// Shows the next language, after the last one the first again.
    pub fn toggle_language(&mut self)
        requires
            old(self).wf(),
        ensures
            final(self).wf(),
            final(self).languages@ == old(self).languages@,
            final(self).default_loc == old(self).default_loc,
            final(self).current_index == (old(self).current_index + 1) % (old(self).languages@.len() as int),
    {
        assert(self.current_index < self.languages.len());
        self.current_index = (self.current_index + 1) % self.languages.len();
    }

    /// The text `loc` gives for `key`, if it has one.
    pub fn get_from_loc<'a>(&'a self, loc: &'a Localization, key: &str) -> (r: Option<&'a str>)
        requires
            loc.wf(),
        ensures
            r matches Some(v) ==> loc_get(*loc, key@) == Some(v@),
            r is None ==> loc_get(*loc, key@) is None,
    {
        if let Some(v) = loc.ui.get(key) {
            return Some(v);
        }
        if let Some(rest) = strip_prefix_str(key, "pending.") {
            if let Some(v) = loc.pending.get(rest.as_str()) {
                return Some(v);
            }
        }
        if let Some(rest) = strip_prefix_str(key, "done.") {
            if let Some(v) = loc.done.get(rest.as_str()) {
                return Some(v);
            }
        }
        if let Some(rest) = strip_prefix_str(key, "pinned.") {
            if let Some(v) = loc.pinned.get(rest.as_str()) {
                return Some(v);
            }
        }
        if let Some(rest) = strip_prefix_str(key, "total.") {
            if let Some(v) = loc.total.get(rest.as_str()) {
                return Some(v);
            }
        }
        if let Some(rest) = strip_prefix_str(key, "messages.") {
            if let Some(v) = loc.messages.get(rest.as_str()) {
                return Some(v);
            }
        }
        if let Some(v) = loc.extra.get(key) {
            return Some(v);
        }
        named_lookup(&loc.named, key)
    }

    /// The text shown for `key`: the current language's, else the default
    /// language's, else `???`.
    pub fn get(&self, key: &str) -> (t: &str)
        requires
            self.wf(),
        ensures
            t@ == text_for(*self, key@),
    {
        let current_loc = &self.languages[self.current_index].1;
        if let Some(val) = self.get_from_loc(current_loc, key) {
            return val;
        }
        if let Some(val) = self.get_from_loc(&self.default_loc, key) {
            return val;
        }
        "???"
    }
}


/// The index of the language shown after `k` toggles among `n` languages,
/// starting from index `i`: each toggle moves to the next, after the last
/// the first (as [`I18n::toggle_language`] states).
pub open spec fn toggled(i: int, n: int, k: nat) -> int
    decreases k,
{
    if k == 0 {
        i
    } else {
        (toggled(i, n, (k - 1) as nat) + 1) % n
    }
}

/// Toggling walks through the languages in order and comes back round:
/// after `k` toggles the language at `(i + k) % n` shows, and after as many
/// toggles as there are languages, the one shown at the start.
pub proof fn lemma_toggle_cycle(i: int, n: int, k: nat)
    requires
        0 <= i < n,
    ensures
        toggled(i, n, k) == (i + k) % n,
        toggled(i, n, n as nat) == i,
{
    lemma_toggle_steps(i, n, k);
    lemma_toggle_cycle_full(i, n);
}

/// After `n` toggles among `n` languages the first language shows again.
proof fn lemma_toggle_cycle_full(i: int, n: int)
    requires
        0 <= i < n,
    ensures
        toggled(i, n, n as nat) == i,
{
    lemma_toggle_steps(i, n, n as nat);
    vstd::arithmetic::div_mod::lemma_mod_add_multiples_vanish(i, n);
    vstd::arithmetic::div_mod::lemma_small_mod(i as nat, n as nat);
}

/// After `k` toggles the language at `(i + k) % n` shows.
proof fn lemma_toggle_steps(i: int, n: int, k: nat)
    requires
        0 <= i < n,
    ensures
        toggled(i, n, k) == (i + k) % n,
    decreases k,
{
    if k > 0 {
        lemma_toggle_steps(i, n, (k - 1) as nat);
        vstd::arithmetic::div_mod::lemma_add_mod_noop_right(1, i + k - 1, n);
    } else {
        vstd::arithmetic::div_mod::lemma_small_mod(i as nat, n as nat);
    }
}

/// The language code a file name gives: `lang_CODE.toml` gives `CODE`; any
/// other name gives none.
pub fn lang_file_code(name: &str) -> (r: Option<String>)
    ensures
        ({
            let n = name@;
            let ok = n.len() >= 10 && n.take(5) == "lang_"@ && n.skip(n.len() - 5) == ".toml"@;
            &&& ok ==> (r matches Some(c) && c@ == n.subrange(5, n.len() - 5))
            &&& !ok ==> r is None
        }),
{
    let v = crate::text::chars_of(name);
    let n = v.len();
    proof {
        reveal_strlit("lang_");
        reveal_strlit(".toml");
    }
    if n < 10 {
        return None;
    }
    let pre = v[0] == 'l' && v[1] == 'a' && v[2] == 'n' && v[3] == 'g' && v[4] == '_';
    let suf = v[n - 5] == '.' && v[n - 4] == 't' && v[n - 3] == 'o' && v[n - 2] == 'm' && v[n - 1] == 'l';
    if !(pre && suf) {
        proof {
            if v@.take(5) == "lang_"@ {
                assert(v@.take(5)[0] == 'l' && v@.take(5)[4] == '_');
                assert(v@.take(5)[1] == 'a' && v@.take(5)[2] == 'n' && v@.take(5)[3] == 'g');
            }
            if v@.skip(n - 5) == ".toml"@ {
                assert(v@.skip(n - 5)[0] == '.' && v@.skip(n - 5)[4] == 'l');
                assert(v@.skip(n - 5)[1] == 't' && v@.skip(n - 5)[2] == 'o' && v@.skip(n - 5)[3] == 'm');
            }
        }
        return None;
    }
    assert(v@.take(5) =~= "lang_"@);
    assert(v@.skip(n - 5) =~= ".toml"@);
    let mut code: Vec<char> = Vec::new();
    let mut i: usize = 5;
    while i < n - 5
        invariant
            5 <= i <= n - 5,
            n == v@.len(),
            code@ == v@.subrange(5, i as int),
        decreases n - 5 - i,
    {
        code.push(v[i]);
        assert(v@.subrange(5, i + 1) =~= v@.subrange(5, i as int).push(v@[i as int]));
        i += 1;
    }
    Some(crate::text::string_of(&code))
}

/// The chosen language comes back: the code of the language shown, saved as
/// it is and restored with [`I18n::restore_language`], is read back as the
/// same code (a code has no white space at its ends), so the same language
/// shows wherever there is a language with that code.
pub proof fn lemma_saved_language(code: Seq<char>)
    requires
        code.len() == 0 || (!is_white(code[0]) && !is_white(code.last())),
    ensures
        trimmed(code) == code,
{
    lemma_trim_plain(code);
}

/// Whether the codes of `langs` are all distinct.
pub open spec fn distinct_codes(langs: Seq<(String, Localization)>) -> bool {
    forall|i: int, j: int| 0 <= i < j < langs.len() ==> langs[i].0@ != langs[j].0@
}

/// Adds the language `code` with texts `loc` to `langs`: in place of the
/// language of the same code where there is one (a later language file of a
/// code wins over an earlier one), else at the end. The codes stay distinct.
pub fn merge_language(langs: &mut Vec<(String, Localization)>, code: String, loc: Localization)
    requires
        distinct_codes(old(langs)@),
    ensures
        distinct_codes(final(langs)@),
        has_code(old(langs)@, code@) ==> exists|k: int| 0 <= k < old(langs)@.len() && (#[trigger] old(langs)@[k]).0@ == code@
            && final(langs)@ == old(langs)@.update(k, (code, loc)),
        !has_code(old(langs)@, code@) ==> final(langs)@ == old(langs)@.push((code, loc)),
{
    let ghost code_v = code@;
    match find_code(langs, code.as_str()) {
        Some(k) => {
            let ghost before = langs@;
            let ghost entry = (code, loc);
            langs.set(k, (code, loc));
            proof {
                assert(langs@ == before.update(k as int, entry));
                assert(before[k as int].0@ == code_v);
                assert forall|i: int, j: int| 0 <= i < j < langs@.len() implies langs@[i].0@ != langs@[j].0@ by {
                    if i == k {
                        assert(langs@[i].0@ == before[i].0@);
                    } else if j == k {
                        assert(langs@[j].0@ == before[j].0@);
                    }
                }
            }
        },
        None => {
            let ghost before = langs@;
            langs.push((code, loc));
            proof {
                assert forall|b: int| 0 <= b < before.len() implies (#[trigger] before[b]).0@ != code_v by {}
                assert forall|i: int, j: int| 0 <= i < j < langs@.len() implies langs@[i].0@ != langs@[j].0@ by {
                    if j == before.len() {
                        assert(langs@[i] == before[i]);
                    } else {
                        assert(langs@[i] == before[i] && langs@[j] == before[j]);
                    }
                }
            }
        },
    }
}

/// The order in which a text is found: the current language's ui table
/// first; the default language where the current one has no text for the
/// key; `???` where neither has one.
pub proof fn lemma_text_order(i: I18n, key: Seq<char>)
    requires
        i.wf(),
    ensures
        ({
            let cur = i.languages@[i.current_index as int].1;
            &&& lookup(cur.ui@, key) matches Some(v) ==> text_for(i, key) == v
            &&& loc_get(cur, key) is None ==> (lookup(i.default_loc.ui@, key) matches Some(v) ==> text_for(i, key) == v)
            &&& (loc_get(cur, key) is None && loc_get(i.default_loc, key) is None) ==> text_for(i, key) == "???"@
        }),
{
}

/// A key that differs from `q` at a place within both has no prefix `q`.
proof fn lemma_not_prefixed(key: Seq<char>, q: Seq<char>, i: int)
    requires
        0 <= i < q.len(),
        i < key.len(),
        key[i] != q[i],
    ensures
        strip_prefix(key, q) is None,
{
    if q.len() <= key.len() && key.take(q.len() as int) == q {
        assert(key.take(q.len() as int)[i] == key[i]);
    }
}

/// `p` followed by `k` has the prefix `p`, leaving `k`.
proof fn lemma_prefixed(p: Seq<char>, k: Seq<char>)
    ensures
        strip_prefix(p + k, p) == Some(k),
{
    assert((p + k).take(p.len() as int) =~= p);
    assert((p + k).skip(p.len() as int) =~= k);
}

/// Each section of a language is read through its own prefix: for a key
/// `section.k` that the ui table does not hold, the text is the one that the
/// section's own table (pending, done, pinned, total or messages) holds for
/// `k`, whenever that table holds one.
pub proof fn lemma_sections(loc: Localization, k: Seq<char>)
    ensures
        lookup(loc.ui@, "pending."@ + k) is None && lookup(loc.pending@, k) is Some
            ==> loc_get(loc, "pending."@ + k) == lookup(loc.pending@, k),
        lookup(loc.ui@, "done."@ + k) is None && lookup(loc.done@, k) is Some
            ==> loc_get(loc, "done."@ + k) == lookup(loc.done@, k),
        lookup(loc.ui@, "pinned."@ + k) is None && lookup(loc.pinned@, k) is Some
            ==> loc_get(loc, "pinned."@ + k) == lookup(loc.pinned@, k),
        lookup(loc.ui@, "total."@ + k) is None && lookup(loc.total@, k) is Some
            ==> loc_get(loc, "total."@ + k) == lookup(loc.total@, k),
        lookup(loc.ui@, "messages."@ + k) is None && lookup(loc.messages@, k) is Some
            ==> loc_get(loc, "messages."@ + k) == lookup(loc.messages@, k),
{
    reveal_strlit("pending.");
    reveal_strlit("done.");
    reveal_strlit("pinned.");
    reveal_strlit("total.");
    reveal_strlit("messages.");
    let pe = "pending."@;
    let d = "done."@;
    let pi = "pinned."@;
    let t = "total."@;
    let m = "messages."@;
    lemma_prefixed(pe, k);
    lemma_prefixed(d, k);
    lemma_prefixed(pi, k);
    lemma_prefixed(t, k);
    lemma_prefixed(m, k);
    assert((d + k)[0] == 'd');
    lemma_not_prefixed(d + k, pe, 0);
    assert((pi + k)[1] == 'i');
    lemma_not_prefixed(pi + k, pe, 1);
    assert((pi + k)[0] == 'p');
    lemma_not_prefixed(pi + k, d, 0);
    assert((t + k)[0] == 't');
    lemma_not_prefixed(t + k, pe, 0);
    lemma_not_prefixed(t + k, d, 0);
    lemma_not_prefixed(t + k, pi, 0);
    assert((m + k)[0] == 'm');
    lemma_not_prefixed(m + k, pe, 0);
    lemma_not_prefixed(m + k, d, 0);
    lemma_not_prefixed(m + k, pi, 0);
    lemma_not_prefixed(m + k, t, 0);
}
} // verus!
