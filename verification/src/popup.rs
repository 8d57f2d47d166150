//! The popups: how each kind of popup edits its text, one key at a time.

use vstd::prelude::*;
use crate::text::{chars_of, string_of, lines_of, split_lines, push_char};
use crate::multiline::{min_of, shown_line};
use crate::width::{char_cols, cols, fit_len, cut_to_width, str_table_width, visual_offset, truncate_by_width, chars_width};

verus! {

/// The kinds of popup.
#[derive(Clone, Copy, PartialEq, Eq, Debug)]
pub enum PopupMode {
    /// One line of at most 16 characters.
    Singleline,
    /// Several lines, at most 256 characters, wrapped at 60 columns.
    Multiline,
    /// A text to read, closed with Esc or Enter.
    Readonly,
}

/// The popup mode for an editable popup.
pub fn mode_for(multiline: bool) -> (m: PopupMode)
    ensures
        m == if multiline { PopupMode::Multiline } else { PopupMode::Singleline },
{
    if multiline { PopupMode::Multiline } else { PopupMode::Singleline }
}

/// A key as an editing popup sees it.
#[derive(Clone, Copy, PartialEq, Eq, Debug)]
pub enum EditKey {
    Char(char),
    Backspace,
    Delete,
    Left,
    Right,
    Up,
    Down,
    Home,
    End,
    PageUp,
    PageDown,
    Enter,
    Esc,
    Other,
}

/// How a popup goes on after a key.
#[derive(Clone, Copy, PartialEq, Eq, Debug)]
pub enum EditOutcome {
    /// Keep editing.
    Continue,
    /// Closed without an answer (Esc).
    Cancel,
    /// Closed with the text as the answer (Enter).
    Submit,
}

/// The editor of a one-line popup: the characters, the cursor (a position
/// between characters), how many columns the view is scrolled, and the most
/// characters it takes.
pub struct LineEditor {
    pub chars: Vec<char>,
    pub cursor: usize,
    pub scroll: usize,
    pub max_len: usize,
}

/// What a one-line popup shows: the visible part of the text and where the
/// cursor stands in it.
pub struct LineView {
    pub display: String,
    pub cursor_col: usize,
    pub show_cursor: bool,
}

/// The scroll of a one-line view after bringing the cursor column `cv` into a
/// view `iw` columns wide that was scrolled by `scroll`.
pub open spec fn follow_cursor(scroll: int, cv: int, iw: int) -> int {
    let s1 = if cv >= scroll + iw { if cv - (iw - 1) > 0 { cv - (iw - 1) } else { 0 } } else { scroll };
    if cv < s1 { cv } else { s1 }
}

/// What a key does to the text and the cursor of a one-line popup holding at
/// most `max_len` characters: Backspace deletes before the cursor, Left and
/// Right move it within the text, a character is inserted at the cursor while
/// there is room; other keys change nothing.
pub open spec fn line_key_effect(chars: Seq<char>, cursor: int, max_len: nat, key: EditKey) -> (Seq<char>, int) {
    match key {
        EditKey::Backspace => if cursor > 0 {
            (chars.remove(cursor - 1), cursor - 1)
        } else {
            (chars, cursor)
        },
        EditKey::Left => (chars, if cursor > 0 { cursor - 1 } else { cursor }),
        EditKey::Right => (chars, if cursor < chars.len() { cursor + 1 } else { cursor }),
        EditKey::Char(c) => if chars.len() < max_len {
            (chars.insert(cursor, c), cursor + 1)
        } else {
            (chars, cursor)
        },
        _ => (chars, cursor),
    }
}

/// Typing a character where there is room and then pressing Backspace gives
/// back the text and the cursor of a one-line popup.
pub proof fn lemma_line_type_then_backspace(chars: Seq<char>, cursor: int, max_len: nat, c: char)
    requires
        0 <= cursor <= chars.len(),
        chars.len() < max_len,
    ensures
        ({
            let a = line_key_effect(chars, cursor, max_len, EditKey::Char(c));
            let b = line_key_effect(a.0, a.1, max_len, EditKey::Backspace);
            b.0 == chars && b.1 == cursor
        }),
{
    let a = line_key_effect(chars, cursor, max_len, EditKey::Char(c));
    assert(a.0.remove(cursor) =~= chars);
}

/// Left and Right move the cursor of a one-line popup by one place within
/// the text and change no character: Right from any place but the end goes
/// one place on, Left from any place but the start one place back, and each
/// undoes the other.
pub proof fn lemma_line_moves(chars: Seq<char>, cursor: int, max_len: nat)
    requires
        0 <= cursor <= chars.len(),
    ensures
        line_key_effect(chars, cursor, max_len, EditKey::Left).0 == chars,
        line_key_effect(chars, cursor, max_len, EditKey::Right).0 == chars,
        cursor < chars.len() ==> line_key_effect(chars, cursor, max_len, EditKey::Right).1 == cursor + 1,
        cursor == chars.len() ==> line_key_effect(chars, cursor, max_len, EditKey::Right).1 == cursor,
        cursor > 0 ==> line_key_effect(chars, cursor, max_len, EditKey::Left).1 == cursor - 1,
        cursor == 0 ==> line_key_effect(chars, cursor, max_len, EditKey::Left).1 == 0,
        cursor < chars.len() ==> ({
            let r = line_key_effect(chars, cursor, max_len, EditKey::Right);
            line_key_effect(r.0, r.1, max_len, EditKey::Left).1 == cursor
        }),
        cursor > 0 ==> ({
            let l = line_key_effect(chars, cursor, max_len, EditKey::Left);
            line_key_effect(l.0, l.1, max_len, EditKey::Right).1 == cursor
        }),
{
}

/// No key takes the text of a one-line popup past its limit, and the cursor
/// stays within the text.
pub proof fn lemma_line_within_limit(chars: Seq<char>, cursor: int, max_len: nat, key: EditKey)
    requires
        0 <= cursor <= chars.len(),
        chars.len() <= max_len,
    ensures
        ({
            let a = line_key_effect(chars, cursor, max_len, key);
            a.0.len() <= max_len && 0 <= a.1 <= a.0.len()
        }),
{
}

impl LineEditor {
    /// The cursor stands within the text.
    pub open spec fn wf(&self) -> bool {
        self.cursor <= self.chars@.len()
    }

    /// An editor holding `initial`, the cursor at its end, taking at most `max_len` characters.
    pub fn new(initial: &str, max_len: usize) -> (e: LineEditor)
        ensures
            e.wf(),
            e.chars@ == initial@,
            e.cursor == initial@.len(),
            e.scroll == 0,
            e.max_len == max_len,
    {
        let chars = chars_of(initial);
        let cursor = chars.len();
        LineEditor { chars, cursor, scroll: 0, max_len }
    }

    /// Handles one key: Esc cancels, Enter submits, Backspace deletes before
    /// the cursor, Left and Right move it, a character is inserted at the
    /// cursor while there is room; other keys do nothing.
    pub fn handle_key(&mut self, key: EditKey) -> (out: EditOutcome)
        requires
            old(self).wf(),
        ensures
            final(self).wf(),
            final(self).scroll == old(self).scroll,
            final(self).max_len == old(self).max_len,
            out == match key {
                EditKey::Esc => EditOutcome::Cancel,
                EditKey::Enter => EditOutcome::Submit,
                _ => EditOutcome::Continue,
            },
            ({
                let r = line_key_effect(old(self).chars@, old(self).cursor as int, old(self).max_len as nat, key);
                final(self).chars@ == r.0 && final(self).cursor == r.1
            }),
    {
        match key {
            EditKey::Esc => EditOutcome::Cancel,
            EditKey::Enter => EditOutcome::Submit,
            EditKey::Backspace => {
                if self.cursor > 0 {
                    self.chars.remove(self.cursor - 1);
                    self.cursor -= 1;
                }
                EditOutcome::Continue
            },
            EditKey::Left => {
                if self.cursor > 0 {
                    self.cursor -= 1;
                }
                EditOutcome::Continue
            },
            EditKey::Right => {
                if self.cursor < self.chars.len() {
                    self.cursor += 1;
                }
                EditOutcome::Continue
            },
            EditKey::Char(c) => {
                if self.chars.len() < self.max_len {
                    self.chars.insert(self.cursor, c);
                    self.cursor += 1;
                }
                EditOutcome::Continue
            },
            _ => EditOutcome::Continue,
        }
    }

    /// The answer of the popup: the text, or nothing when it is empty.
    pub fn result(&self) -> (r: Option<String>)
        ensures
            self.chars@.len() == 0 ==> r is None,
            self.chars@.len() > 0 ==> (r matches Some(s) && s@ == self.chars@),
    {
        if self.chars.len() == 0 {
            None
        } else {
            Some(string_of(&self.chars))
        }
    }

    /// Scrolls the view of a popup `popup_width` columns wide so that the
    /// cursor shows, and gives what the input line shows: the text from the
    /// scroll on, cut to the width, with `…` where the text goes on past it.
    pub fn layout(&mut self, popup_width: u16) -> (v: LineView)
        requires
            old(self).wf(),
            popup_width >= 9,
            3 * old(self).chars@.len() <= usize::MAX,
        ensures
            final(self).wf(),
            final(self).chars@ == old(self).chars@,
            final(self).cursor == old(self).cursor,
            final(self).max_len == old(self).max_len,
            ({
                let iw: int = popup_width - 8;
                let cv: int = cols(old(self).chars@.take(old(self).cursor as int)) as int;
                let s = follow_cursor(old(self).scroll as int, cv, iw);
                let skip: int = if s == 0 { 0 } else { fit_len(old(self).chars@, s as nat) as int };
                let visible = old(self).chars@.skip(skip);
                &&& final(self).scroll == s
                &&& v.display@ == if str_table_width(old(self).chars@) > s + iw {
                    cut_to_width(visible, (iw - 1) as nat).push('…')
                } else {
                    cut_to_width(visible, iw as nat)
                }
                &&& v.cursor_col == if cv >= s { cv - s } else { 0 }
                &&& v.show_cursor == (v.cursor_col <= iw)
            }),
    {
        let iw: usize = (popup_width - 8) as usize;
        let full = string_of(&self.chars);
        let cv = visual_offset(full.as_str(), self.cursor);
        assert(self.chars@.take(self.cursor as int) == full@.take(self.cursor as int));
        if cv >= self.scroll && cv - self.scroll >= iw {
            self.scroll = cv.saturating_sub(iw - 1);
        }
        if cv < self.scroll {
            self.scroll = cv;
        }
        let scroll = self.scroll;
        let mut skip: usize = 0;
        if scroll > 0 {
            let mut acc: usize = 0;
            let mut stop = false;
            while skip < self.chars.len() && !stop
                invariant
                    skip <= self.chars@.len(),
                    acc == cols(self.chars@.take(skip as int)),
                    acc <= scroll,
                    stop ==> skip < self.chars@.len() && cols(self.chars@.take(skip + 1)) > scroll,
                decreases self.chars@.len() - skip + if stop { 0int } else { 1int },
            {
                let w = char_cols(self.chars[skip]);
                assert(self.chars@.take(skip + 1).drop_last() =~= self.chars@.take(skip as int));
                assert(self.chars@.take(skip + 1).last() == self.chars@[skip as int]);
                if w > scroll - acc {
                    stop = true;
                } else {
                    acc = acc + w;
                    skip = skip + 1;
                }
            }
            proof {
                if stop {
                    crate::width::lemma_fit_len_at(self.chars@, scroll as nat, skip as int);
                } else {
                    assert(self.chars@.take(self.chars@.len() as int) =~= self.chars@);
                }
            }
        }
        let mut rest: Vec<char> = Vec::new();
        let mut i: usize = skip;
        while i < self.chars.len()
            invariant
                skip <= i <= self.chars@.len(),
                rest@ == self.chars@.subrange(skip as int, i as int),
            decreases self.chars@.len() - i,
        {
            rest.push(self.chars[i]);
            i = i + 1;
        }
        assert(rest@ =~= self.chars@.skip(skip as int));
        let visible = string_of(&rest);
        let total = chars_width(&self.chars);
        let display = if total > scroll && total - scroll > iw {
            let mut d = truncate_by_width(visible.as_str(), iw - 1);
            crate::text::push_char(&mut d, '…');
            d
        } else {
            truncate_by_width(visible.as_str(), iw)
        };
        let cursor_col = cv.saturating_sub(scroll);
        LineView { display, cursor_col, show_cursor: cursor_col <= iw }
    }
}


/// A rectangle of terminal cells: its top-left corner and its size.
#[derive(Clone, Copy, PartialEq, Eq, Debug)]
pub struct Area {
    pub x: u16,
    pub y: u16,
    pub width: u16,
    pub height: u16,
}

/// The width of an editing popup on a terminal `tw` columns wide: 74
/// columns, or 4 fewer than the terminal where that is less.
pub open spec fn edit_popup_width(tw: u16) -> int {
    min_of(74, if tw >= 4 { tw - 4 } else { 0 })
}

/// Where an editing popup `height` rows high stands on a terminal `tw` by
/// `th`: centred, [`edit_popup_width`] wide; nowhere when it has no width or
/// the terminal has fewer than `height + 2` rows.
pub fn edit_popup_area(tw: u16, th: u16, height: u16) -> (r: Option<Area>)
    requires
        height <= 1000,
    ensures
        ({
            let w = edit_popup_width(tw);
            if w == 0 || th < height + 2 {
                r is None
            } else {
                r == Some(Area { x: ((tw - w) / 2) as u16, y: ((th - height) / 2) as u16, width: w as u16, height })
            }
        }),
{
    let avail: u16 = if tw >= 4 { tw - 4 } else { 0 };
    let w: u16 = if avail < 74 { avail } else { 74 };
    if w == 0 || th < height + 2 {
        return None;
    }
    Some(Area { x: (tw - w) / 2, y: (th - height) / 2, width: w, height })
}

/// The widest display among the lines.
pub open spec fn widest(ls: Seq<Seq<char>>) -> nat
    decreases ls.len(),
{
    if ls.len() == 0 {
        0
    } else {
        let a = widest(ls.drop_last());
        let b = str_table_width(ls.last()) as nat;
        if a >= b { a } else { b }
    }
}

/// No line is wider than the widest.
proof fn lemma_widest(ls: Seq<Seq<char>>, i: int)
    requires
        0 <= i < ls.len(),
    ensures
        str_table_width(ls[i]) <= widest(ls),
    decreases ls.len(),
{
    if i < ls.len() - 1 {
        lemma_widest(ls.drop_last(), i);
    }
}

/// The widest display among the lines, with the lines as vectors.
fn widest_of(ls: &Vec<Vec<char>>) -> (w: usize)
    ensures
        w == widest(crate::text::views(ls@)),
{
    let ghost vs = crate::text::views(ls@);
    let mut w: usize = 0;
    let mut i: usize = 0;
    while i < ls.len()
        invariant
            i <= ls@.len(),
            vs == crate::text::views(ls@),
            w == widest(vs.take(i as int)),
        decreases ls@.len() - i,
    {
        let c = chars_width(&ls[i]);
        proof {
            assert(vs.take(i + 1).drop_last() =~= vs.take(i as int));
            assert(vs.take(i + 1).last() == ls@[i as int]@);
        }
        if c > w {
            w = c;
        }
        i += 1;
    }
    assert(vs.take(ls@.len() as int) =~= vs);
    w
}

/// The columns a read-only popup asks for: its widest line, of the text or
/// of the hint, and 6 more.
pub open spec fn readonly_needed_width(content: Seq<char>, hint: Seq<char>) -> int {
    let a = widest(lines_of(content));
    let b = widest(lines_of(hint));
    let m: int = if a >= b { a as int } else { b as int };
    if m + 6 > usize::MAX { usize::MAX as int } else { m + 6 }
}

/// The rows the hint of a read-only popup takes.
pub open spec fn hint_height(hint: Seq<char>) -> int {
    if hint.len() == 0 { 0 } else { lines_of(hint).len() as int }
}

/// The rows a read-only popup asks for: its lines, the hint's, and 4 more.
pub open spec fn readonly_needed_height(content: Seq<char>, hint: Seq<char>) -> int {
    let n = lines_of(content).len() + 4 + hint_height(hint);
    if n > usize::MAX { usize::MAX as int } else { n }
}

/// How a read-only popup is laid out: its area, the rows its hint takes,
/// and its lines as shown.
pub struct ReadonlyLayout {
    pub area: Area,
    pub hint_rows: u16,
    pub rows: Vec<String>,
}

/// Lays out a read-only popup showing `content` under `hint` on a terminal
/// `tw` by `th`: centred, as wide as its widest line asks (held 4 columns
/// inside the terminal) and as high as its lines ask (held 4 rows inside);
/// a line too wide for the popup is cut and ends in `…`. There is no popup
/// when the text has no line or the popup would have no room (no row, or
/// fewer than the 6 columns of its frame and margins, or only those 6 while
/// a line of the text takes a column).
pub fn readonly_layout(content: &str, hint: &str, tw: u16, th: u16) -> (r: Option<ReadonlyLayout>)
    ensures
        ({
            let ls = lines_of(content@);
            let needed = readonly_needed_width(content@, hint@);
            let pw = min_of((needed as u16) as int, if tw >= 4 { tw - 4 } else { 0 });
            let ph = min_of((readonly_needed_height(content@, hint@) as u16) as int, if th >= 4 { th - 4 } else { 0 });
            if ls.len() == 0 || ph == 0 || pw < 6 || (pw == 6 && widest(ls) > 0) {
                r is None
            } else {
                &&& r is Some
                &&& r->0.area == Area { x: ((tw - pw) / 2) as u16, y: ((th - ph) / 2) as u16, width: pw as u16, height: ph as u16 }
                &&& r->0.hint_rows == hint_height(hint@) as u16
                &&& r->0.rows@.len() == ls.len()
                &&& forall|i: int| 0 <= i < ls.len() ==> (#[trigger] r->0.rows@[i])@ == shown_line(ls[i], (pw - 6) as nat)
            }
        }),
{
    let lines = split_lines(content);
    if lines.len() == 0 {
        return None;
    }
    let hint_lines = split_lines(hint);
    let hh: usize = if hint.unicode_len() == 0 { 0 } else { hint_lines.len() };
    let mc = widest_of(&lines);
    let mh = widest_of(&hint_lines);
    let m = if mc >= mh { mc } else { mh };
    let needed: usize = if m > usize::MAX - 6 { usize::MAX } else { m + 6 };
    let n1: usize = lines.len();
    let needed_h: usize = if n1 > usize::MAX - 4 || hh > usize::MAX - 4 - n1 { usize::MAX } else { n1 + 4 + hh };
    let nw: u16 = needed as u16;
    let avail_w: u16 = if tw >= 4 { tw - 4 } else { 0 };
    let pw: u16 = if nw < avail_w { nw } else { avail_w };
    let avail_h: u16 = if th >= 4 { th - 4 } else { 0 };
    let nh: u16 = needed_h as u16;
    let ph: u16 = if nh < avail_h { nh } else { avail_h };
    if ph == 0 || pw < 6 || (pw == 6 && mc > 0) {
        return None;
    }
    let aw: usize = (pw - 6) as usize;
    let ghost ls = crate::text::views(lines@);
    let mut rows: Vec<String> = Vec::new();
    let mut i: usize = 0;
    while i < lines.len()
        invariant
            i <= lines@.len(),
            ls == crate::text::views(lines@),
            aw == pw - 6,
            pw >= 7 || mc == 0,
            mc == widest(ls),
            rows@.len() == i,
            forall|k: int| 0 <= k < i ==> (#[trigger] rows@[k])@ == shown_line(ls[k], aw as nat),
        decreases lines@.len() - i,
    {
        proof {
            lemma_widest(ls, i as int);
        }
        let line = string_of(&lines[i]);
        let row = if visual_width_of(&line) > aw {
            let mut d = truncate_by_width(line.as_str(), aw - 1);
            push_char(&mut d, '…');
            d
        } else {
            line
        };
        rows.push(row);
        i += 1;
    }
    Some(ReadonlyLayout {
        area: Area { x: (tw - pw) / 2, y: (th - ph) / 2, width: pw, height: ph },
        hint_rows: hh as u16,
        rows,
    })
}

/// The display width of a string.
fn visual_width_of(s: &String) -> (w: usize)
    ensures
        w == str_table_width(s@),
{
    crate::width::visual_width(s.as_str())
}

} // verus!
