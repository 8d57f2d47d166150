//! The layout rules of the interface: where each part of the screen goes on
//! a terminal of a given size, and which texts fit.

use vstd::prelude::*;
use vstd::string::*;
use crate::popup::Area;
use crate::text::{chars_of, string_of, views, decimal, decimal_string, push_char};
use crate::width::{str_table_width, visual_width, truncate_text_by_width, cut_to_width};
use crate::datetime::{split_on, split_chars, lemma_split_on_nonempty};
use crate::multiline::min_of;
use crate::todo::Todo;
use crate::order::is_overdue;

verus! {

/// The fewest columns the interface is drawn in.
pub const MIN_WIDTH: u16 = 30;

/// The fewest rows the interface is drawn in.
pub const MIN_HEIGHT: u16 = 10;

/// Columns of the cat picture.
pub const CAT_WIDTH: u16 = 30;

/// Rows of the cat picture.
pub const CAT_HEIGHT: u16 = 16;

/// The right edge of an area (one past its last column).
pub open spec fn right_of(a: Area) -> int {
    a.x + a.width
}

/// The bottom edge of an area (one past its last row).
pub open spec fn bottom_of(a: Area) -> int {
    a.y + a.height
}

/// Whether a terminal is too small for the interface, which then shows only
/// a request to enlarge it.
pub fn is_too_small(width: u16, height: u16) -> (r: bool)
    ensures
        r == (height < MIN_HEIGHT || width < MIN_WIDTH),
{
    height < MIN_HEIGHT || width < MIN_WIDTH
}

/// How the main area is shared between the list and the right panel.
#[derive(Clone, Copy, PartialEq, Eq, Debug)]
pub struct MainSplit {
    pub left_width: u16,
    pub right_width: u16,
    pub show_right: bool,
}

/// Shares a main area `width` columns wide: above 80 columns the list takes
/// 58% of it (at least 20 columns), otherwise all of it; the right panel is
/// shown when what is left is at least 20 columns. The product `width * 58`
/// is taken in 16 bits, wrapping past 65535 (from 1130 columns on).
pub fn split_main(width: u16) -> (r: MainSplit)
    ensures
        ({
            let left: int = if width > 80 {
                let p: int = (width * 58) % 0x1_0000 / 100;
                if p >= 20 { p } else { 20 }
            } else {
                width as int
            };
            let right: int = if width >= left { width - left } else { 0 };
            &&& r.left_width == left
            &&& r.right_width == right
            &&& r.show_right == (right >= 20)
        }),
{
    let left: u16 = if width > 80 {
        let p: u16 = width.wrapping_mul(58) / 100;
        if p >= 20 { p } else { 20 }
    } else {
        width
    };
    let right: u16 = if width >= left { width - left } else { 0 };
    MainSplit { left_width: left, right_width: right, show_right: right >= 20 }
}

/// Where the task details go in the right panel: the column they start at,
/// their width, the first row and the row below the last.
#[derive(Clone, Copy, PartialEq, Eq, Debug)]
pub struct ContentFrame {
    pub x: u16,
    pub width: u16,
    pub start_y: u16,
    pub bottom: u16,
}

/// The parts of the right panel: the details, the cat picture, and the area
/// whose last row shows the mood line.
#[derive(Clone, Copy, PartialEq, Eq, Debug)]
pub struct PanelLayout {
    pub content: Option<ContentFrame>,
    pub cat: Option<Area>,
    pub mood_area: Option<Area>,
}

/// Lays out the inside of the right panel's border. Under 20 columns it
/// stays empty. With room for the cat and 30 columns beside it, the details
/// go left of the cat; with room for the cat and 15 rows below it, the cat
/// goes on top; otherwise the details fill the panel from its second row.
pub fn panel_layout(inner: Area) -> (r: PanelLayout)
    requires
        right_of(inner) <= u16::MAX,
        bottom_of(inner) <= u16::MAX,
        inner.y < u16::MAX,
    ensures
        inner.width < 20 ==> r.content is None && r.cat is None && r.mood_area is None,
        inner.width >= 20 ==> ({
            let beside = inner.width >= CAT_WIDTH + 30 + 4 && inner.height >= CAT_HEIGHT + 2;
            let above = inner.height >= CAT_HEIGHT + 15 + 2 && inner.width >= CAT_WIDTH + 2;
            if beside {
                let cat = Area { x: (right_of(inner) - CAT_WIDTH - 1) as u16, y: inner.y, width: CAT_WIDTH, height: inner.height };
                &&& r.content == Some(ContentFrame { x: (inner.x + 2) as u16, width: (inner.width - CAT_WIDTH - 4) as u16, start_y: inner.y, bottom: bottom_of(inner) as u16 })
                &&& r.cat == Some(cat)
                &&& r.mood_area == Some(cat)
            } else if above {
                &&& r.cat == Some(Area { x: inner.x, y: inner.y, width: inner.width, height: CAT_HEIGHT })
                &&& r.content == if inner.height > CAT_HEIGHT {
                    Some(ContentFrame { x: (inner.x + 2) as u16, width: (inner.width - 4) as u16, start_y: (inner.y + CAT_HEIGHT) as u16, bottom: bottom_of(inner) as u16 })
                } else {
                    None
                }
                &&& r.mood_area == Some(inner)
            } else {
                &&& r.content == Some(ContentFrame { x: (inner.x + 2) as u16, width: (inner.width - 4) as u16, start_y: (inner.y + 1) as u16, bottom: bottom_of(inner) as u16 })
                &&& r.cat is None
                &&& r.mood_area == Some(inner)
            }
        }),
{
    if inner.width < 20 {
        return PanelLayout { content: None, cat: None, mood_area: None };
    }
    let bottom: u16 = inner.y + inner.height;
    let beside = inner.width >= CAT_WIDTH + 30 + 4 && inner.height >= CAT_HEIGHT + 2;
    let above = inner.height >= CAT_HEIGHT + 15 + 2 && inner.width >= CAT_WIDTH + 2;
    if beside {
        let cat = Area { x: inner.x + inner.width - CAT_WIDTH - 1, y: inner.y, width: CAT_WIDTH, height: inner.height };
        let content = ContentFrame { x: inner.x + 2, width: inner.width - CAT_WIDTH - 4, start_y: inner.y, bottom };
        PanelLayout { content: Some(content), cat: Some(cat), mood_area: Some(cat) }
    } else if above {
        let cat = Area { x: inner.x, y: inner.y, width: inner.width, height: CAT_HEIGHT };
        let content = if inner.height > CAT_HEIGHT {
            Some(ContentFrame { x: inner.x + 2, width: inner.width - 4, start_y: inner.y + CAT_HEIGHT, bottom })
        } else {
            None
        };
        PanelLayout { content, cat: Some(cat), mood_area: Some(inner) }
    } else {
        let content = ContentFrame { x: inner.x + 2, width: inner.width - 4, start_y: inner.y + 1, bottom };
        PanelLayout { content: Some(content), cat: None, mood_area: Some(inner) }
    }
}

/// Where the cat is drawn in `area`: its left column, its first row and how
/// many of its rows show (all but what would fall on the area's last row).
/// An area narrower or lower than the picture shows no cat.
pub fn bongo_rows(area: Area) -> (r: Option<(u16, u16, u16)>)
    requires
        bottom_of(area) <= u16::MAX,
        right_of(area) <= u16::MAX,
    ensures
        (area.width < CAT_WIDTH || area.height < CAT_HEIGHT) ==> r is None,
        !(area.width < CAT_WIDTH || area.height < CAT_HEIGHT) ==> r == Some((
            (if right_of(area) >= CAT_WIDTH + 1 { right_of(area) - CAT_WIDTH - 1 } else { 0 }) as u16,
            area.y,
            min_of(CAT_HEIGHT as int, area.height - 1) as u16,
        )),
{
    if area.width == 0 || area.height == 0 {
        return None;
    }
    if area.width < CAT_WIDTH || area.height < CAT_HEIGHT {
        return None;
    }
    let right: u16 = area.x + area.width;
    let x: u16 = if right >= CAT_WIDTH + 1 { right - (CAT_WIDTH + 1) } else { 0 };
    let bottom: u16 = area.y + area.height;
    let mut y: u16 = area.y;
    let mut rows: u16 = 0;
    let mut k: u16 = 0;
    while k < CAT_HEIGHT
        invariant
            k <= CAT_HEIGHT,
            bottom == area.y + area.height,
            area.height >= CAT_HEIGHT,
            y == area.y + rows,
            rows == min_of(k as int, area.height - 1),
        decreases CAT_HEIGHT - k,
    {
        if y < bottom - 1 {
            y += 1;
            rows += 1;
        }
        k += 1;
    }
    Some((x, area.y, rows))
}

/// The text key of the mood line for `pending` open tasks out of `total`.
pub open spec fn mood_key_spec(pending: usize, total: usize) -> Seq<char> {
    if pending == 0 && total > 0 {
        "mood_all_done"@
    } else if pending == 0 {
        "mood_empty"@
    } else if pending == 1 {
        "mood_one"@
    } else if pending <= 3 {
        "mood_few"@
    } else if pending <= 7 {
        "mood_several"@
    } else {
        "mood_many"@
    }
}

/// The text key of the mood line: all done, nothing yet, one, a few (up to
/// 3), several (up to 7) or many open tasks.
pub fn mood_key(pending: usize, total: usize) -> (k: &'static str)
    ensures
        k@ == mood_key_spec(pending, total),
{
    if pending == 0 && total > 0 {
        "mood_all_done"
    } else if pending == 0 {
        "mood_empty"
    } else if pending == 1 {
        "mood_one"
    } else if pending <= 3 {
        "mood_few"
    } else if pending <= 7 {
        "mood_several"
    } else {
        "mood_many"
    }
}

/// Where the mood line `mood` goes in `area`: its last row, when the text
/// and two columns fit.
pub fn mood_row(area: Area, mood: &str) -> (r: Option<Area>)
    requires
        area.height >= 1,
    ensures
        ((mood@.len() as u16) as int + 2 <= area.width) ==> r == Some(Area { x: area.x, y: (bottom_of(area) - 1) as u16, width: area.width, height: 1 }),
        !((mood@.len() as u16) as int + 2 <= area.width) ==> r is None,
{
    let n: u16 = mood.unicode_len() as u16;
    if (n as u32) + 2 <= area.width as u32 {
        Some(Area { x: area.x, y: ((area.y as u32 + area.height as u32) - 1) as u16, width: area.width, height: 1 })
    } else {
        None
    }
}

/// The index of the key hint the status bar shows among the wide, medium and
/// narrow ones: the first whose width and two columns fit, else the narrow one.
pub open spec fn hint_choice(widths: Seq<usize>, area_width: u16) -> int {
    if (widths[0] as u16) as int + 2 <= area_width {
        0
    } else if (widths[1] as u16) as int + 2 <= area_width {
        1
    } else {
        2
    }
}

/// The status bar of `area_width` columns: which hint it shows (by
/// [`hint_choice`]) and whether that hint fits at all.
pub fn status_hint(wide: &str, medium: &str, narrow: &str, area_width: u16) -> (r: (usize, bool))
    ensures
        ({
            let ws = seq![str_table_width(wide@), str_table_width(medium@), str_table_width(narrow@)];
            let i = hint_choice(ws, area_width);
            &&& r.0 == i
            &&& r.1 == ((ws[i] as u16) as int + 2 <= area_width)
        }),
{
    let w0: u16 = visual_width(wide) as u16;
    let w1: u16 = visual_width(medium) as u16;
    let w2: u16 = visual_width(narrow) as u16;
    let aw = area_width as u32;
    let i: usize = if w0 as u32 + 2 <= aw { 0 } else if w1 as u32 + 2 <= aw { 1 } else { 2 };
    let w: u16 = if i == 0 { w0 } else if i == 1 { w1 } else { w2 };
    (i, w as u32 + 2 <= aw)
}

/// The message of the status bar in `area`: cut to the area's width less two
/// columns, and placed two columns from its right edge when it is not empty
/// and fits.
pub fn status_message(message: &str, area: Area) -> (r: Option<(String, u16)>)
    requires
        right_of(area) <= u16::MAX,
    ensures
        message@.len() == 0 ==> r is None,
        message@.len() > 0 ==> ({
            let t = if area.width >= 2 { cut_to_width(message@, (area.width - 2) as nat) } else { Seq::<char>::empty() };
            let mw = (str_table_width(t) as u16) as int;
            if mw > 0 && mw + 2 <= area.width {
                r matches Some(p) && p.0@ == t && p.1 == right_of(area) - mw - 2
            } else {
                r is None
            }
        }),
{
    if message.unicode_len() == 0 {
        return None;
    }
    let max_w: usize = if area.width >= 2 { (area.width - 2) as usize } else { 0 };
    let t = truncate_text_by_width(message, max_w);
    let mw: u16 = visual_width(t.as_str()) as u16;
    if mw > 0 && mw as u32 + 2 <= area.width as u32 {
        let x: u16 = area.x + area.width - mw - 2;
        Some((t, x))
    } else {
        None
    }
}

/// The pieces of the top bar: the title, then the tag filter and the search
/// when they are set, each with its label and a space before it.
pub fn topbar_spans(title: &str, filter_label: &str, filter: &str, search_label: &str, search: &str) -> (r: Vec<String>)
    ensures
        r@.len() == 1 + (if filter@.len() > 0 { 2int } else { 0 }) + (if search@.len() > 0 { 2int } else { 0 }),
        r@[0]@ == title@,
        filter@.len() > 0 ==> r@[1]@ == " "@ && r@[2]@ == filter_label@ + filter@ + " "@,
        search@.len() > 0 ==> ({
            let k: int = if filter@.len() > 0 { 3 } else { 1 };
            r@[k]@ == " "@ && r@[k + 1]@ == search_label@ + search@ + "/ "@
        }),
{
    let mut spans: Vec<String> = Vec::new();
    spans.push(title.to_owned());
    if filter.unicode_len() > 0 {
        spans.push(" ".to_owned());
        let mut s = filter_label.to_owned();
        s.append(filter);
        s.append(" ");
        spans.push(s);
    }
    if search.unicode_len() > 0 {
        spans.push(" ".to_owned());
        let mut s = search_label.to_owned();
        s.append(search);
        s.append("/ ");
        spans.push(s);
    }
    spans
}

/// The width of a row of pieces: the sum of their display widths.
pub open spec fn spans_width(spans: Seq<Seq<char>>) -> int
    decreases spans.len(),
{
    if spans.len() == 0 {
        0
    } else {
        spans_width(spans.drop_last()) + str_table_width(spans.last())
    }
}

/// Whether the top bar's pieces fit into `area_width` columns, their width
/// taken modulo 2^16 as a 16-bit count of columns is.
pub fn topbar_fits(spans: &Vec<String>, area_width: u16) -> (r: bool)
    ensures
        r == (spans_width(spans@.map_values(|s: String| s@)) % 0x1_0000 <= area_width),
{
    let ghost vs = spans@.map_values(|s: String| s@);
    let mut total: u64 = 0;
    let mut i: usize = 0;
    while i < spans.len()
        invariant
            i <= spans@.len(),
            vs == spans@.map_values(|s: String| s@),
            total as int == spans_width(vs.take(i as int)) % 0x1_0000,
            total < 0x1_0000,
        decreases spans@.len() - i,
    {
        let w = visual_width(spans[i].as_str());
        proof {
            assert(vs.take(i + 1).drop_last() =~= vs.take(i as int));
            assert(vs.take(i + 1).last() == spans@[i as int]@);
            let a = spans_width(vs.take(i as int));
            let b = w as int;
            assert((a % 0x1_0000 + b % 0x1_0000) % 0x1_0000 == (a + b) % 0x1_0000) by {
                vstd::arithmetic::div_mod::lemma_add_mod_noop(a, b, 0x1_0000);
            }
        }
        total = (total + (w % 0x1_0000) as u64) % 0x1_0000;
        i += 1;
    }
    assert(vs.take(spans@.len() as int) =~= vs);
    total <= area_width as u64
}


/// The label over the statistics in `width` columns: `[ header ]` when it
/// fits with four columns to spare, else `[`, the header's first `width - 4`
/// characters and `]` when there are at least four columns, else nothing.
pub fn stats_header_label(header: &str, width: u16) -> (r: Option<String>)
    ensures
        ({
            let full = "[ "@ + header@ + " ]"@;
            if (str_table_width(full) as u16) as int + 4 <= width {
                r matches Some(t) && t@ == full
            } else if width >= 4 {
                r matches Some(t) && t@ == "["@ + header@.take(min_of(header@.len() as int, width - 4)) + "]"@
            } else {
                r is None
            }
        }),
{
    let mut full = "[ ".to_owned();
    full.append(header);
    full.append(" ]");
    let fw: u16 = visual_width(full.as_str()) as u16;
    if fw as u32 + 4 <= width as u32 {
        return Some(full);
    }
    if width >= 4 {
        let v = chars_of(header);
        let n: usize = (width - 4) as usize;
        let mut out: Vec<char> = Vec::new();
        out.push('[');
        let mut i: usize = 0;
        while i < v.len() && i < n
            invariant
                i <= v@.len(),
                i <= n,
                v@ == header@,
                out@ == seq!['['] + v@.take(i as int),
            decreases v@.len() - i,
        {
            out.push(v[i]);
            assert(v@.take(i + 1) =~= v@.take(i as int).push(v@[i as int]));
            i += 1;
        }
        out.push(']');
        proof {
            reveal_strlit("[");
            reveal_strlit("]");
            assert(i == min_of(header@.len() as int, width - 4));
            assert(out@ =~= "["@ + header@.take(i as int) + "]"@);
        }
        return Some(string_of(&out));
    }
    None
}

/// `s` followed by spaces up to `n` characters.
pub open spec fn padded(s: Seq<char>, n: nat) -> Seq<char> {
    if s.len() >= n { s } else { s + Seq::new((n - s.len()) as nat, |i: int| ' ') }
}

/// Pads `s` with spaces on the right to `n` characters (`{:<n}`).
pub fn pad_right(s: &str, n: usize) -> (r: String)
    ensures
        r@ == padded(s@, n as nat),
{
    let mut r = s.to_owned();
    let len = s.unicode_len();
    let mut k: usize = len;
    while k < n
        invariant
            len == s@.len(),
            len <= k <= n || (len > n && k == len),
            r@ == s@ + Seq::new((k - len) as nat, |i: int| ' '),
        decreases n - k,
    {
        push_char(&mut r, ' ');
        assert(s@ + Seq::new((k + 1 - len) as nat, |i: int| ' ') =~= (s@ + Seq::new((k - len) as nat, |i: int| ' ')).push(' '));
        k += 1;
    }
    assert(s@ + Seq::new(0, |i: int| ' ') =~= s@);
    r
}

/// A line of the statistics: the label and a space padded to 18 columns,
/// then the count.
pub fn stat_row(label: &str, count: usize) -> (r: (String, String))
    ensures
        r.0@ == padded(label@ + " "@, 18),
        r.1@ == decimal(count as nat),
{
    let mut l = label.to_owned();
    l.append(" ");
    (pad_right(l.as_str(), 18), decimal_string(count))
}

/// The line of the tag at `index` (from 0) in the list of tags:
/// ` N  #tag (count)`, the number counted from 1 and the tag padded to 8
/// columns.
pub fn tag_row(index: usize, tag: &str, count: usize) -> (r: String)
    requires
        index < usize::MAX,
    ensures
        r@ == " "@ + decimal((index + 1) as nat) + "  #"@ + padded(tag@, 8) + " ("@ + decimal(count as nat) + ")"@,
{
    let mut r = " ".to_owned();
    r.append(decimal_string(index + 1).as_str());
    r.append("  #");
    r.append(pad_right(tag, 8).as_str());
    r.append(" (");
    r.append(decimal_string(count).as_str());
    r.append(")");
    r
}

/// Whether the row of tag `tag` is shown as the active filter.
pub fn tag_is_active(filter: &str, tag: &str) -> (r: bool)
    ensures
        r == (filter@.len() > 0 && filter@ == tag@),
{
    filter.unicode_len() > 0 && crate::text::same_text(filter, tag)
}

/// A piece of text cut into rows of `width` characters; an empty piece gives
/// no row.
pub open spec fn chunks(p: Seq<char>, width: nat) -> Seq<Seq<char>>
    decreases p.len(),
{
    if p.len() == 0 || width == 0 {
        Seq::<Seq<char>>::empty()
    } else if p.len() > width {
        seq![p.take(width as int)] + chunks(p.skip(width as int), width)
    } else {
        seq![p]
    }
}

/// The rows of `ps` cut by [`chunks`], one piece after the other.
pub open spec fn chunk_all(ps: Seq<Seq<char>>, width: nat) -> Seq<Seq<char>>
    decreases ps.len(),
{
    if ps.len() == 0 {
        Seq::<Seq<char>>::empty()
    } else {
        chunk_all(ps.drop_last(), width) + chunks(ps.last(), width)
    }
}

/// The rows that show a task's text in `width` columns: each of its lines
/// (split at `\n`) cut into rows of `width` characters, empty lines giving
/// none.
pub fn text_rows(text: &str, width: usize) -> (r: Vec<String>)
    requires
        width > 0,
    ensures
        r@.map_values(|s: String| s@) == chunk_all(split_on(text@, '\n'), width as nat),
{
    let v = chars_of(text);
    let parts = split_chars(&v, '\n');
    let ghost ps = split_on(text@, '\n');
    let mut rows: Vec<String> = Vec::new();
    let mut i: usize = 0;
    while i < parts.len()
        invariant
            i <= parts@.len(),
            width > 0,
            parts@.len() == ps.len(),
            forall|k: int| 0 <= k < parts@.len() ==> (#[trigger] parts@[k])@ == ps[k],
            rows@.map_values(|s: String| s@) == chunk_all(ps.take(i as int), width as nat),
        decreases parts@.len() - i,
    {
        let ghost before = rows@.map_values(|s: String| s@);
        let ghost p = parts@[i as int]@;
        let mut start: usize = 0;
        let n = parts[i].len();
        assert(p.skip(0) =~= p);
        while start < n
            invariant
                start <= n,
                n == p.len(),
                width > 0,
                p == parts@[i as int]@,
                i < parts@.len(),
                rows@.map_values(|s: String| s@) + chunks(p.skip(start as int), width as nat) == before + chunks(p, width as nat),
            decreases n - start,
        {
            let ghost rest = p.skip(start as int);
            let end: usize = if n - start > width { start + width } else { n };
            let mut row: Vec<char> = Vec::new();
            let mut k: usize = start;
            while k < end
                invariant
                    start <= k <= end,
                    end <= n,
                    i < parts@.len(),
                    n == parts@[i as int]@.len(),
                    row@ == parts@[i as int]@.subrange(start as int, k as int),
                decreases end - k,
            {
                row.push(parts[i][k]);
                k += 1;
            }
            let ghost old_rows = rows@;
            rows.push(string_of(&row));
            proof {
                assert(old_rows.push(rows@.last()) == rows@);
                assert(rows@.map_values(|s: String| s@) =~= old_rows.map_values(|s: String| s@).push(row@));
                if rest.len() > width {
                    assert(row@ =~= rest.take(width as int));
                    assert(rest.skip(width as int) =~= p.skip(end as int));
                    assert(chunks(rest, width as nat) == seq![rest.take(width as int)] + chunks(rest.skip(width as int), width as nat));
                    assert(old_rows.map_values(|s: String| s@).push(row@) + chunks(p.skip(end as int), width as nat)
                        =~= old_rows.map_values(|s: String| s@) + chunks(rest, width as nat));
                } else {
                    assert(row@ =~= rest);
                    assert(p.skip(end as int) =~= Seq::<char>::empty());
                    assert(chunks(rest, width as nat) == seq![rest]);
                    assert(old_rows.map_values(|s: String| s@).push(row@) + chunks(p.skip(end as int), width as nat)
                        =~= old_rows.map_values(|s: String| s@) + chunks(rest, width as nat));
                }
            }
            start = end;
        }
        proof {
            assert(p.skip(n as int) =~= Seq::<char>::empty());
            assert(rows@.map_values(|s: String| s@) + Seq::<Seq<char>>::empty() =~= rows@.map_values(|s: String| s@));
            assert(ps.take(i + 1).drop_last() =~= ps.take(i as int));
            assert(ps.take(i + 1).last() == p);
        }
        i += 1;
    }
    assert(ps.take(parts@.len() as int) =~= ps);
    rows
}

/// How the details fill the rows from `start_y` to `bottom`: the header on
/// `start_y`; the first `stat_rows` of the four statistics from
/// `start_y + 1`; when `tags_shown`, the tags header on `start_y + 6` and
/// `tag_rows` tags from `start_y + 7`; then the selected task's area, its
/// first row and its height, if it has one.
#[derive(Clone, Copy, PartialEq, Eq, Debug)]
pub struct ContentPlan {
    pub stat_rows: u16,
    pub tags_shown: bool,
    pub tag_rows: u16,
    pub details: Option<(u16, u16)>,
}

/// The number of statistics lines placed: lines go on while two rows stay
/// free below the last one.
pub open spec fn planned_stat_rows(start: int, bottom: int) -> int {
    let k0 = if bottom - start - 4 > 0 { bottom - start - 4 } else { 0 };
    if k0 <= 3 { k0 + 1 } else { 4 }
}

/// The number of tag rows placed, of `n_tags` tags (at most nine): rows go
/// on while four rows stay free below the last one.
pub open spec fn planned_tag_rows(start: int, bottom: int, n_tags: int) -> int {
    let m = min_of(n_tags, 9);
    let i0 = if bottom - start - 12 > 0 { bottom - start - 12 } else { 0 };
    min_of(m, i0 + 1)
}

/// Plans the details between rows `start_y` and `bottom` in `width`
/// columns, with `n_tags` tags and, when `has_selected`, a selected task:
/// the statistics stop early where fewer than three rows are left; the tag
/// list and the task come only where more than four rows are left; the task
/// gets the rows down to two above the bottom.
pub fn plan_content(start_y: u16, bottom: u16, width: u16, n_tags: usize, has_selected: bool) -> (r: ContentPlan)
    requires
        start_y + 20 <= u16::MAX,
    ensures
        ({
            let st = start_y as int;
            let bt = bottom as int;
            let stopped = st + 7 >= bt;
            let tags_shown = !stopped && n_tags > 0 && st + 10 < bt;
            let t = if tags_shown { planned_tag_rows(st, bt, n_tags as int) } else { 0 };
            let y = if tags_shown { st + 8 + t } else { st + 6 };
            &&& r.stat_rows == planned_stat_rows(st, bt)
            &&& r.tags_shown == tags_shown
            &&& r.tag_rows == t
            &&& r.details == if !stopped && has_selected && y < bt - 4 && width > 0 {
                Some((y as u16, (bt - y - 2) as u16))
            } else {
                None
            }
        }),
{
    let mut y: u16 = start_y + 1;
    let mut k: u16 = 0;
    let mut stopped = false;
    while k < 4 && !stopped
        invariant
            k <= 4,
            start_y + 20 <= u16::MAX,
            y == start_y + 1 + k,
            stopped ==> k >= 1 && k == planned_stat_rows(start_y as int, bottom as int) && start_y + 3 + k >= bottom,
            !stopped ==> (k == 0 || start_y + 3 + k < bottom),
        decreases 4 - k + if stopped { 0int } else { 1int },
    {
        y += 1;
        k += 1;
        if y + 2 >= bottom {
            stopped = true;
        }
    }
    if stopped {
        return ContentPlan { stat_rows: k, tags_shown: false, tag_rows: 0, details: None };
    }
    y += 1;
    let mut tags_shown = false;
    let mut t: u16 = 0;
    if n_tags > 0 && y < bottom - 4 {
        tags_shown = true;
        y += 1;
        let m: u16 = if n_tags < 9 { n_tags as u16 } else { 9 };
        let mut done = false;
        while t < m && !done
            invariant
                m == min_of(n_tags as int, 9),
                t <= m,
                bottom > start_y + 10,
                start_y + 20 <= u16::MAX,
                y == start_y + 7 + t,
                done ==> t >= 1 && t == planned_tag_rows(start_y as int, bottom as int, n_tags as int),
                !done ==> (t == 0 || start_y + 11 + t < bottom),
            decreases m - t + if done { 0int } else { 1int },
        {
            y += 1;
            t += 1;
            if y >= bottom - 4 {
                done = true;
            }
        }
        y += 1;
    }
    let details = if has_selected && y < bottom - 4 && width > 0 {
        Some((y, bottom - y - 2))
    } else {
        None
    };
    ContentPlan { stat_rows: k, tags_shown, tag_rows: t, details }
}

/// The hash that picks a tag's colour: over the tag's characters,
/// `h * 31 + c` with 64-bit wrapping, from 0.
pub open spec fn tag_hash(s: Seq<char>) -> u64
    decreases s.len(),
{
    if s.len() == 0 {
        0
    } else {
        vstd::wrapping::u64_specs::wrapping_add(
            vstd::wrapping::u64_specs::wrapping_mul(tag_hash(s.drop_last()), 31),
            s.last() as u64,
        )
    }
}

/// Which of the eight tag colours a tag is drawn in.
pub fn tag_color_index(tag: &str) -> (i: usize)
    ensures
        i == tag_hash(tag@) % 8,
        i < 8,
{
    let v = chars_of(tag);
    let mut h: u64 = 0;
    let mut k: usize = 0;
    while k < v.len()
        invariant
            k <= v@.len(),
            v@ == tag@,
            h == tag_hash(v@.take(k as int)),
        decreases v@.len() - k,
    {
        assert(v@.take(k + 1).drop_last() =~= v@.take(k as int));
        h = h.wrapping_mul(31).wrapping_add(v[k] as u64);
        k += 1;
    }
    assert(v@.take(v@.len() as int) =~= v@);
    (h % 8) as usize
}

/// The column where the clock of the top bar starts in `area`: two columns
/// from the right edge; none when that would fall left of the area.
pub fn topbar_clock_x(area: Area, clock_len: usize) -> (r: Option<u16>)
    requires
        right_of(area) <= u16::MAX,
        right_of(area) >= (clock_len as u16) + 2,
    ensures
        ({
            let tw = (clock_len as u16) as int;
            let x = right_of(area) - tw - 2;
            r == if tw > 0 && x >= area.x { Some(x as u16) } else { None }
        }),
{
    let tw: u16 = clock_len as u16;
    let x: u16 = area.x + area.width - tw - 2;
    if tw > 0 && x >= area.x {
        Some(x)
    } else {
        None
    }
}

/// The first task in view of a list `rows` rows high that showed tasks from
/// `top`, once it follows the selected task: it scrolls up to a selection
/// above the view and down to one below it, and stays put otherwise.
pub fn list_top_for(top: usize, selected: usize, rows: usize) -> (r: usize)
    ensures
        r == if selected < top {
            selected as int
        } else if rows > 0 && selected - top >= rows {
            selected - rows + 1
        } else {
            top as int
        },
        rows > 0 ==> r <= selected < r + rows,
{
    if selected < top {
        selected
    } else if rows > 0 && selected - top >= rows {
        selected - rows + 1
    } else {
        top
    }
}

/// The text of a task's row in the list: its box (`[x]` when done), a star
/// when pinned, its tag, and the first line of its text.
pub open spec fn row_text(t: Todo) -> Seq<char> {
    (if t.done { "[x] "@ } else { "[ ] "@ }) + (if t.pinned { "* "@ } else { Seq::<char>::empty() })
        + (if t.tag@.len() > 0 { "#"@ + t.tag@ + " "@ } else { Seq::<char>::empty() })
        + split_on(t.text@, '\n')[0]
}

/// A task's row in a list `width` columns wide: [`row_text`] cut to the width.
pub fn task_row(t: &Todo, width: usize) -> (r: String)
    ensures
        width == 0 ==> r@ == Seq::<char>::empty(),
        width > 0 ==> r@ == cut_to_width(row_text(*t), width as nat),
{
    let mut s = if t.done { "[x] ".to_owned() } else { "[ ] ".to_owned() };
    if t.pinned {
        s.append("* ");
    }
    if t.tag.unicode_len() > 0 {
        s.append("#");
        s.append(t.tag.as_str());
        s.append(" ");
    }
    let v = chars_of(t.text.as_str());
    let parts = split_chars(&v, '\n');
    proof {
        lemma_split_on_nonempty(t.text@, '\n');
    }
    let first = string_of(&parts[0]);
    s.append(first.as_str());
    proof {
        if t.tag@.len() > 0 {
            assert(s@ =~= row_text(*t));
        } else {
            assert(s@ =~= row_text(*t));
        }
    }
    truncate_text_by_width(s.as_str(), width)
}

/// How a task's row is coloured.
#[derive(Clone, Copy, PartialEq, Eq, Debug)]
pub enum RowKind {
    Selected,
    Done,
    Overdue,
    Open,
}

/// The colouring of a task's row: the selected row stands out, then done
/// tasks, then tasks past their due date at `now`.
pub fn row_kind(t: &Todo, selected: bool, now: u64) -> (k: RowKind)
    ensures
        k == if selected {
            RowKind::Selected
        } else if t.done {
            RowKind::Done
        } else if is_overdue(*t, now) {
            RowKind::Overdue
        } else {
            RowKind::Open
        },
{
    if selected {
        RowKind::Selected
    } else if t.done {
        RowKind::Done
    } else if t.due_date > 0 && t.due_date < now {
        RowKind::Overdue
    } else {
        RowKind::Open
    }
}
} // verus!
