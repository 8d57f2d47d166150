//! The editor of a multi-line popup: lines of characters, a cursor between
//! characters, and the wrapping that breaks a line grown wider than the
//! popup (for printable ASCII, every line then fits: `lemma_key_keeps_fit`).

use vstd::prelude::*;
use vstd::seq_lib::lemma_flatten_concat;
use crate::text::{views, lines_of, split_lines, copy_chars, join_chars, string_of};
use crate::width::{is_printable_ascii, fit_len, str_table_width, break_point, split_chars_by_width, chars_width, lemma_break_point_bounds, cols, cut_to_width, truncate_by_width, visual_width, visual_offset};
use crate::popup::{EditKey, EditOutcome};

verus! {

/// Rows of the input area of a multi-line popup; Page Up and Page Down move
/// the cursor by this many lines.
pub const INPUT_ROWS: usize = 5;

/// Whether every character of `l` is printable ASCII.
pub open spec fn all_printable_ascii(l: Seq<char>) -> bool {
    forall|i: int| 0 <= i < l.len() ==> is_printable_ascii(#[trigger] l[i])
}

/// Whether the display of a line is wider than `w` columns: a line of
/// printable ASCII is as wide as it is long, any other is as wide as
/// unicode-width says.
pub open spec fn too_wide(l: Seq<char>, w: nat) -> bool {
    if all_printable_ascii(l) {
        l.len() > w
    } else {
        str_table_width(l) > w
    }
}

/// A line broken into pieces that fit `w` columns: while the line is too
/// wide and a break leaves characters on both sides, the part that fits
/// becomes a line of its own and the rest is broken in turn.
pub open spec fn wrap_line(l: Seq<char>, w: nat) -> Seq<Seq<char>>
    decreases l.len(),
{
    let bp = break_point(l, w);
    if too_wide(l, w) && 0 < bp < l.len() {
        seq![l.take(bp)] + wrap_line(l.skip(bp), w)
    } else {
        seq![l]
    }
}

/// Every line of `ls` broken by [`wrap_line`], in order.
pub open spec fn wrap_all(ls: Seq<Seq<char>>, w: nat) -> Seq<Seq<char>>
    decreases ls.len(),
{
    if ls.len() == 0 {
        Seq::<Seq<char>>::empty()
    } else {
        wrap_all(ls.drop_last(), w) + wrap_line(ls.last(), w)
    }
}

/// The lines an editor starts with: the lines of the text (one empty line
/// for an empty text), wrapped to `w` columns.
pub open spec fn initial_lines(text: Seq<char>, w: nat) -> Seq<Seq<char>> {
    let ls = lines_of(text);
    wrap_all(if ls.len() == 0 { seq![Seq::<char>::empty()] } else { ls }, w)
}

/// The lines joined with `\n` between them.
pub open spec fn join_lines(ls: Seq<Seq<char>>) -> Seq<char>
    decreases ls.len(),
{
    if ls.len() == 0 {
        Seq::<char>::empty()
    } else if ls.len() == 1 {
        ls[0]
    } else {
        join_lines(ls.drop_last()) + seq!['\n'] + ls.last()
    }
}

/// Line `y` broken where [`break_point`] puts the break, the rest going to a
/// new line after it.
pub open spec fn split_line_at(ls: Seq<Seq<char>>, y: int, w: nat) -> Seq<Seq<char>> {
    let bp = break_point(ls[y], w);
    ls.update(y, ls[y].take(bp)).insert(y + 1, ls[y].skip(bp))
}

/// After an edit of the cursor's line: when it has grown too wide it is
/// split, and the cursor goes to column `col` of the new line.
pub open spec fn rewrap(ls: Seq<Seq<char>>, x: int, y: int, w: nat, col: int) -> (Seq<Seq<char>>, int, int) {
    if too_wide(ls[y], w) {
        (split_line_at(ls, y, w), col, y + 1)
    } else {
        (ls, x, y)
    }
}

/// The cursor brought back onto the text: onto the last line, and onto the
/// end of its line.
pub open spec fn clamp_cursor(m: (Seq<Seq<char>>, int, int)) -> (Seq<Seq<char>>, int, int) {
    let y = if m.2 >= m.0.len() { m.0.len() - 1 } else { m.2 };
    let x = if m.1 > m.0[y].len() { m.0[y].len() as int } else { m.1 };
    (m.0, x, y)
}

/// The smaller of two integers.
pub open spec fn min_of(a: int, b: int) -> int {
    if a <= b { a } else { b }
}

/// What a key does to the lines and the cursor `(x, y)`, before the cursor
/// is clamped: `w` is the width lines wrap at and `max_total` the most
/// characters the text takes.
pub open spec fn key_effect(
    ls: Seq<Seq<char>>,
    x: int,
    y: int,
    key: EditKey,
    w: nat,
    max_total: nat,
) -> (Seq<Seq<char>>, int, int) {
    match key {
        EditKey::Backspace => if x > 0 {
            let l1 = ls.update(y, ls[y].remove(x - 1));
            if y > 0 && !too_wide(l1[y - 1] + l1[y], w) {
                let j = l1[y - 1] + l1[y];
                rewrap(l1.update(y - 1, j).remove(y), j.len() as int, y - 1, w, 0)
            } else {
                rewrap(l1, x - 1, y, w, 0)
            }
        } else if y > 0 {
            rewrap(ls.update(y - 1, ls[y - 1] + ls[y]).remove(y), ls[y - 1].len() as int, y - 1, w, 0)
        } else {
            (ls, x, y)
        },
        EditKey::Delete => if x < ls[y].len() {
            rewrap(ls.update(y, ls[y].remove(x)), x, y, w, 0)
        } else if y + 1 < ls.len() {
            rewrap(ls.update(y, ls[y] + ls[y + 1]).remove(y + 1), x, y, w, 0)
        } else {
            (ls, x, y)
        },
        EditKey::Left => if x > 0 {
            (ls, x - 1, y)
        } else if y > 0 {
            (ls, ls[y - 1].len() as int, y - 1)
        } else {
            (ls, x, y)
        },
        EditKey::Right => if x < ls[y].len() {
            (ls, x + 1, y)
        } else if y + 1 < ls.len() {
            (ls, 0, y + 1)
        } else {
            (ls, x, y)
        },
        EditKey::Up => if y > 0 {
            (ls, min_of(x, ls[y - 1].len() as int), y - 1)
        } else {
            (ls, x, y)
        },
        EditKey::Down => if y + 1 < ls.len() {
            (ls, min_of(x, ls[y + 1].len() as int), y + 1)
        } else {
            (ls, x, y)
        },
        EditKey::Home => (ls, 0, y),
        EditKey::End => (ls, ls[y].len() as int, y),
        EditKey::PageUp => {
            let y2 = if y >= INPUT_ROWS { y - INPUT_ROWS } else { 0 };
            (ls, min_of(x, ls[y2].len() as int), y2)
        },
        EditKey::PageDown => {
            let y2 = min_of(y + INPUT_ROWS, ls.len() - 1);
            (ls, min_of(x, ls[y2].len() as int), y2)
        },
        EditKey::Char(c) => if ls.flatten().len() < max_total {
            rewrap(ls.update(y, ls[y].insert(x, c)), x + 1, y, w, 1)
        } else {
            (ls, x, y)
        },
        _ => (ls, x, y),
    }
}

/// The views of a vector after `set`.
proof fn lemma_views_update(v: Seq<Vec<char>>, i: int, a: Vec<char>)
    requires
        0 <= i < v.len(),
    ensures
        views(v.update(i, a)) == views(v).update(i, a@),
{
    assert(views(v.update(i, a)) =~= views(v).update(i, a@));
}

/// The views of a vector after `insert`.
proof fn lemma_views_insert(v: Seq<Vec<char>>, i: int, a: Vec<char>)
    requires
        0 <= i <= v.len(),
    ensures
        views(v.insert(i, a)) == views(v).insert(i, a@),
{
    assert(views(v.insert(i, a)) =~= views(v).insert(i, a@));
}

/// The views of a vector after `remove`.
proof fn lemma_views_remove(v: Seq<Vec<char>>, i: int)
    requires
        0 <= i < v.len(),
    ensures
        views(v.remove(i)) == views(v).remove(i),
{
    assert(views(v.remove(i)) =~= views(v).remove(i));
}

/// The views of a vector after `push`.
proof fn lemma_views_push(v: Seq<Vec<char>>, a: Vec<char>)
    ensures
        views(v.push(a)) == views(v).push(a@),
{
    assert(views(v.push(a)) =~= views(v).push(a@));
}

/// Wrapping never leaves a line out: every line gives at least one.
proof fn lemma_wrap_line_nonempty(l: Seq<char>, w: nat)
    ensures
        wrap_line(l, w).len() >= 1,
    decreases l.len(),
{
    let bp = break_point(l, w);
    if too_wide(l, w) && 0 < bp < l.len() {
        lemma_wrap_line_nonempty(l.skip(bp), w);
    }
}

/// Wrapping gives at least as many lines as it was given.
proof fn lemma_wrap_all_len(ls: Seq<Seq<char>>, w: nat)
    ensures
        wrap_all(ls, w).len() >= ls.len(),
    decreases ls.len(),
{
    if ls.len() > 0 {
        lemma_wrap_all_len(ls.drop_last(), w);
        lemma_wrap_line_nonempty(ls.last(), w);
    }
}

/// Wraps every line of `lines` to `w` columns.
fn wrap_lines(lines: &Vec<Vec<char>>, w: usize) -> (r: Vec<Vec<char>>)
    ensures
        views(r@) == wrap_all(views(lines@), w as nat),
{
    let mut out: Vec<Vec<char>> = Vec::new();
    let mut i: usize = 0;
    while i < lines.len()
        invariant
            i <= lines@.len(),
            views(out@) == wrap_all(views(lines@).take(i as int), w as nat),
        decreases lines@.len() - i,
    {
        let ghost start = views(out@);
        let mut cur = copy_chars(&lines[i]);
        let mut done = false;
        while !done
            invariant
                i < lines@.len(),
                start == wrap_all(views(lines@).take(i as int), w as nat),
                !done ==> views(out@) + wrap_line(cur@, w as nat) == start + wrap_line(lines@[i as int]@, w as nat),
                done ==> views(out@) == start + wrap_line(lines@[i as int]@, w as nat),
            decreases cur@.len() + if done { 0int } else { 1int },
        {
            let ghost before = views(out@);
            let ghost c = cur@;
            proof {
                lemma_break_point_bounds(c, w as nat);
            }
            let wide = chars_width(&cur) > w;
            let (a, b) = split_chars_by_width(&cur, w);
            if wide && a.len() > 0 && b.len() > 0 {
                proof {
                    lemma_views_push(out@, a);
                    let bp = break_point(c, w as nat);
                    assert(wrap_line(c, w as nat) == seq![c.take(bp)] + wrap_line(c.skip(bp), w as nat));
                    assert(views(out@.push(a)) + wrap_line(b@, w as nat) =~= before + wrap_line(c, w as nat));
                }
                out.push(a);
                cur = b;
            } else {
                proof {
                    lemma_views_push(out@, cur);
                    assert(wrap_line(c, w as nat) == seq![c]);
                    assert(views(out@.push(cur)) =~= before + wrap_line(c, w as nat));
                }
                out.push(cur);
                cur = Vec::new();
                done = true;
            }
        }
        proof {
            let vs = views(lines@);
            assert(vs.take(i + 1).drop_last() =~= vs.take(i as int));
            assert(vs.take(i + 1).last() == lines@[i as int]@);
        }
        i += 1;
    }
    proof {
        assert(views(lines@).take(lines@.len() as int) =~= views(lines@));
    }
    out
}

/// Where the cursor `(x, y)` falls in the text read without line breaks.
pub open spec fn flat_pos(ls: Seq<Seq<char>>, x: int, y: int) -> int {
    ls.take(y).flatten().len() + x
}

/// The text around line `y`: the lines before it, the line, the lines after.
proof fn lemma_flatten_at(ls: Seq<Seq<char>>, y: int)
    requires
        0 <= y < ls.len(),
    ensures
        ls.flatten() == ls.take(y).flatten() + ls[y] + ls.skip(y + 1).flatten(),
{
    let one = seq![ls[y]];
    assert(ls =~= ls.take(y) + (one + ls.skip(y + 1)));
    lemma_flatten_concat(ls.take(y), one + ls.skip(y + 1));
    lemma_flatten_concat(one, ls.skip(y + 1));
    one.lemma_flatten_one_element();
    assert(ls.take(y).flatten() + (ls[y] + ls.skip(y + 1).flatten())
        =~= ls.take(y).flatten() + ls[y] + ls.skip(y + 1).flatten());
}

/// The text after line `y` is replaced by `l`.
proof fn lemma_flatten_update(ls: Seq<Seq<char>>, y: int, l: Seq<char>)
    requires
        0 <= y < ls.len(),
    ensures
        ls.update(y, l).flatten() == ls.take(y).flatten() + l + ls.skip(y + 1).flatten(),
{
    let u = ls.update(y, l);
    lemma_flatten_at(u, y);
    assert(u.take(y) =~= ls.take(y));
    assert(u.skip(y + 1) =~= ls.skip(y + 1));
}

/// Breaking line `y` after `k` characters keeps the text.
proof fn lemma_flatten_split(ls: Seq<Seq<char>>, y: int, k: int)
    requires
        0 <= y < ls.len(),
        0 <= k <= ls[y].len(),
    ensures
        ls.update(y, ls[y].take(k)).insert(y + 1, ls[y].skip(k)).flatten() == ls.flatten(),
{
    let r = ls.update(y, ls[y].take(k)).insert(y + 1, ls[y].skip(k));
    let two = seq![ls[y].take(k), ls[y].skip(k)];
    assert(r =~= ls.take(y) + (two + ls.skip(y + 1)));
    lemma_flatten_concat(ls.take(y), two + ls.skip(y + 1));
    lemma_flatten_concat(two, ls.skip(y + 1));
    assert(two =~= seq![ls[y].take(k)].push(ls[y].skip(k)));
    seq![ls[y].take(k)].lemma_flatten_push(ls[y].skip(k));
    seq![ls[y].take(k)].lemma_flatten_one_element();
    assert(ls[y].take(k) + ls[y].skip(k) =~= ls[y]);
    lemma_flatten_at(ls, y);
    assert(ls.take(y).flatten() + (ls[y] + ls.skip(y + 1).flatten())
        =~= ls.take(y).flatten() + ls[y] + ls.skip(y + 1).flatten());
}

/// Joining line `y` onto line `y - 1` keeps the text.
proof fn lemma_flatten_merge(ls: Seq<Seq<char>>, y: int)
    requires
        0 < y < ls.len(),
    ensures
        ls.update(y - 1, ls[y - 1] + ls[y]).remove(y).flatten() == ls.flatten(),
{
    let r = ls.update(y - 1, ls[y - 1] + ls[y]).remove(y);
    assert(r =~= ls.take(y - 1).push(ls[y - 1] + ls[y]) + ls.skip(y + 1));
    let two = seq![ls[y - 1], ls[y]];
    assert(ls =~= ls.take(y - 1) + (two + ls.skip(y + 1)));
    lemma_flatten_concat(ls.take(y - 1), two + ls.skip(y + 1));
    lemma_flatten_concat(two, ls.skip(y + 1));
    assert(two =~= seq![ls[y - 1]].push(ls[y]));
    seq![ls[y - 1]].lemma_flatten_push(ls[y]);
    seq![ls[y - 1]].lemma_flatten_one_element();
    lemma_flatten_concat(ls.take(y - 1).push(ls[y - 1] + ls[y]), ls.skip(y + 1));
    ls.take(y - 1).lemma_flatten_push(ls[y - 1] + ls[y]);
    assert(ls.take(y - 1).flatten() + (ls[y - 1] + ls[y]) + ls.skip(y + 1).flatten()
        =~= ls.take(y - 1).flatten() + (ls[y - 1] + ls[y] + ls.skip(y + 1).flatten()));
}

/// Re-wrapping the cursor's line keeps the text.
proof fn lemma_rewrap_keeps(ls: Seq<Seq<char>>, x: int, y: int, w: nat, col: int)
    requires
        0 <= y < ls.len(),
    ensures
        rewrap(ls, x, y, w, col).0.flatten() == ls.flatten(),
        rewrap(ls, x, y, w, col).0.len() >= ls.len(),
{
    lemma_break_point_bounds(ls[y], w);
    if too_wide(ls[y], w) {
        lemma_flatten_split(ls, y, break_point(ls[y], w));
    }
}

/// What a key does to the text of a multi-line popup, line breaks aside: a
/// character typed while the text is under its limit is inserted at the
/// cursor, Backspace removes the character before the cursor and Delete the
/// one after it on the cursor's line; wrapping, joining lines and moving the
/// cursor leave the characters as they were.
pub proof fn lemma_key_keeps_content(
    ls: Seq<Seq<char>>,
    x: int,
    y: int,
    key: EditKey,
    w: nat,
    max_total: nat,
)
    requires
        0 <= y < ls.len(),
        0 <= x <= ls[y].len(),
    ensures
        ({
            let r = key_effect(ls, x, y, key, w, max_total);
            let p = flat_pos(ls, x, y);
            r.0.flatten() == match key {
                EditKey::Char(c) => if ls.flatten().len() < max_total {
                    ls.flatten().insert(p, c)
                } else {
                    ls.flatten()
                },
                EditKey::Backspace => if x > 0 { ls.flatten().remove(p - 1) } else { ls.flatten() },
                EditKey::Delete => if x < ls[y].len() { ls.flatten().remove(p) } else { ls.flatten() },
                _ => ls.flatten(),
            }
        }),
{
    match key {
        EditKey::Char(c) => lemma_char_content(ls, x, y, c, w, max_total),
        EditKey::Backspace => lemma_backspace_content(ls, x, y, w),
        EditKey::Delete => lemma_delete_content(ls, x, y, w),
        _ => {},
    }
}

/// Typing a character inserts it at the cursor, if the text is under its limit.
proof fn lemma_char_content(ls: Seq<Seq<char>>, x: int, y: int, c: char, w: nat, max_total: nat)
    requires
        0 <= y < ls.len(),
        0 <= x <= ls[y].len(),
    ensures
        key_effect(ls, x, y, EditKey::Char(c), w, max_total).0.flatten() == if ls.flatten().len() < max_total {
            ls.flatten().insert(flat_pos(ls, x, y), c)
        } else {
            ls.flatten()
        },
{
    if ls.flatten().len() < max_total {
        let a = ls.take(y).flatten();
        let b = ls.skip(y + 1).flatten();
        let p = flat_pos(ls, x, y);
        lemma_flatten_at(ls, y);
        let l1 = ls.update(y, ls[y].insert(x, c));
        lemma_flatten_update(ls, y, ls[y].insert(x, c));
        assert(a + ls[y].insert(x, c) + b =~= (a + ls[y] + b).insert(p, c));
        lemma_rewrap_keeps(l1, x + 1, y, w, 1);
    }
}

/// Backspace removes the character before the cursor, if there is one on its line.
proof fn lemma_backspace_content(ls: Seq<Seq<char>>, x: int, y: int, w: nat)
    requires
        0 <= y < ls.len(),
        0 <= x <= ls[y].len(),
    ensures
        key_effect(ls, x, y, EditKey::Backspace, w, 0).0.flatten() == if x > 0 {
            ls.flatten().remove(flat_pos(ls, x, y) - 1)
        } else {
            ls.flatten()
        },
{
    if x > 0 {
        let a = ls.take(y).flatten();
        let b = ls.skip(y + 1).flatten();
        let p = flat_pos(ls, x, y);
        lemma_flatten_at(ls, y);
        let l1 = ls.update(y, ls[y].remove(x - 1));
        lemma_flatten_update(ls, y, ls[y].remove(x - 1));
        assert(a + ls[y].remove(x - 1) + b =~= (a + ls[y] + b).remove(p - 1));
        if y > 0 && !too_wide(l1[y - 1] + l1[y], w) {
            let j = l1[y - 1] + l1[y];
            lemma_flatten_merge(l1, y);
            lemma_rewrap_keeps(l1.update(y - 1, j).remove(y), j.len() as int, y - 1, w, 0);
        } else {
            lemma_rewrap_keeps(l1, x - 1, y, w, 0);
        }
    } else if y > 0 {
        lemma_flatten_merge(ls, y);
        lemma_rewrap_keeps(ls.update(y - 1, ls[y - 1] + ls[y]).remove(y), ls[y - 1].len() as int, y - 1, w, 0);
    }
}

/// Delete removes the character after the cursor, if there is one on its line.
proof fn lemma_delete_content(ls: Seq<Seq<char>>, x: int, y: int, w: nat)
    requires
        0 <= y < ls.len(),
        0 <= x <= ls[y].len(),
    ensures
        key_effect(ls, x, y, EditKey::Delete, w, 0).0.flatten() == if x < ls[y].len() {
            ls.flatten().remove(flat_pos(ls, x, y))
        } else {
            ls.flatten()
        },
{
    if x < ls[y].len() {
        let a = ls.take(y).flatten();
        let b = ls.skip(y + 1).flatten();
        let p = flat_pos(ls, x, y);
        lemma_flatten_at(ls, y);
        let l1 = ls.update(y, ls[y].remove(x));
        lemma_flatten_update(ls, y, ls[y].remove(x));
        assert(a + ls[y].remove(x) + b =~= (a + ls[y] + b).remove(p));
        lemma_rewrap_keeps(l1, x, y, w, 0);
    } else if y + 1 < ls.len() {
        lemma_flatten_merge(ls, y + 1);
        lemma_rewrap_keeps(ls.update(y, ls[y] + ls[y + 1]).remove(y + 1), x, y, w, 0);
    }
}

/// A text within its limit stays within it, whatever the key.
pub proof fn lemma_key_within_limit(
    ls: Seq<Seq<char>>,
    x: int,
    y: int,
    key: EditKey,
    w: nat,
    max_total: nat,
)
    requires
        0 <= y < ls.len(),
        0 <= x <= ls[y].len(),
        ls.flatten().len() <= max_total,
    ensures
        key_effect(ls, x, y, key, w, max_total).0.flatten().len() <= max_total,
{
    lemma_key_keeps_content(ls, x, y, key, w, max_total);
    ls.take(y).lemma_flatten_and_flatten_alt_are_equivalent();
    lemma_flatten_at(ls, y);
}

/// Wrapping a line keeps its characters.
pub proof fn lemma_wrap_line_keeps(l: Seq<char>, w: nat)
    ensures
        wrap_line(l, w).flatten() == l,
    decreases l.len(),
{
    let bp = break_point(l, w);
    if too_wide(l, w) && 0 < bp < l.len() {
        lemma_wrap_line_keeps(l.skip(bp), w);
        let one = seq![l.take(bp)];
        lemma_flatten_concat(one, wrap_line(l.skip(bp), w));
        one.lemma_flatten_one_element();
        assert(l.take(bp) + l.skip(bp) =~= l);
    } else {
        seq![l].lemma_flatten_one_element();
    }
}

/// Wrapping keeps the text: the wrapped lines read without breaks are the
/// lines read without breaks.
pub proof fn lemma_wrap_all_keeps(ls: Seq<Seq<char>>, w: nat)
    ensures
        wrap_all(ls, w).flatten() == ls.flatten(),
    decreases ls.len(),
{
    if ls.len() > 0 {
        lemma_wrap_all_keeps(ls.drop_last(), w);
        lemma_wrap_line_keeps(ls.last(), w);
        lemma_flatten_concat(wrap_all(ls.drop_last(), w), wrap_line(ls.last(), w));
        assert(ls =~= ls.drop_last().push(ls.last()));
        ls.drop_last().lemma_flatten_push(ls.last());
    }
}

/// Every line is printable ASCII and at most `w` characters long.
pub open spec fn fits_ascii(ls: Seq<Seq<char>>, w: nat) -> bool {
    forall|i: int| 0 <= i < ls.len() ==> all_printable_ascii(#[trigger] ls[i]) && ls[i].len() <= w
}

/// A line of printable ASCII takes one column per character.
proof fn lemma_cols_ascii(l: Seq<char>)
    requires
        all_printable_ascii(l),
    ensures
        cols(l) == l.len(),
    decreases l.len(),
{
    if l.len() > 0 {
        assert(all_printable_ascii(l.drop_last())) by {
            assert forall|i: int| 0 <= i < l.drop_last().len() implies is_printable_ascii(#[trigger] l.drop_last()[i]) by {
                assert(l.drop_last()[i] == l[i]);
            }
        }
        lemma_cols_ascii(l.drop_last());
        assert(is_printable_ascii(l[l.len() - 1]));
    }
}

/// As many characters of a printable-ASCII line fit into `w` columns as
/// there are columns, or the whole line.
proof fn lemma_fit_len_ascii(l: Seq<char>, w: nat)
    requires
        all_printable_ascii(l),
    ensures
        fit_len(l, w) == min_of(l.len() as int, w as int),
    decreases l.len(),
{
    lemma_cols_ascii(l);
    if l.len() > w {
        assert(all_printable_ascii(l.drop_last())) by {
            assert forall|i: int| 0 <= i < l.drop_last().len() implies is_printable_ascii(#[trigger] l.drop_last()[i]) by {
                assert(l.drop_last()[i] == l[i]);
            }
        }
        lemma_fit_len_ascii(l.drop_last(), w);
    }
}

/// Re-wrapping a printable-ASCII cursor line of at most `2 * w` characters,
/// the other lines fitting, leaves every line fitting.
proof fn lemma_rewrap_fit(ls: Seq<Seq<char>>, x: int, y: int, w: nat, col: int)
    requires
        0 <= y < ls.len(),
        w >= 1,
        forall|i: int| 0 <= i < ls.len() ==> all_printable_ascii(#[trigger] ls[i]),
        forall|i: int| 0 <= i < ls.len() && i != y ==> (#[trigger] ls[i]).len() <= w,
        ls[y].len() <= 2 * w,
    ensures
        fits_ascii(rewrap(ls, x, y, w, col).0, w),
{
    let l = ls[y];
    assert(all_printable_ascii(l));
    if too_wide(l, w) {
        lemma_fit_len_ascii(l, w);
        assert(break_point(l, w) == w);
        let r = split_line_at(ls, y, w);
        assert forall|i: int| 0 <= i < r.len() implies all_printable_ascii(#[trigger] r[i]) && r[i].len() <= w by {
            if i < y {
                assert(r[i] == ls[i]);
            } else if i == y {
                assert(r[i] == l.take(w as int));
                assert forall|k: int| 0 <= k < r[i].len() implies is_printable_ascii(#[trigger] r[i][k]) by {
                    assert(r[i][k] == l[k]);
                }
            } else if i == y + 1 {
                assert(r[i] == l.skip(w as int));
                assert forall|k: int| 0 <= k < r[i].len() implies is_printable_ascii(#[trigger] r[i][k]) by {
                    assert(r[i][k] == l[k + w]);
                }
            } else {
                assert(r[i] == ls[i - 1]);
            }
        }
    }
}

/// Joining two printable-ASCII lines gives one.
proof fn lemma_ascii_join(a: Seq<char>, b: Seq<char>)
    requires
        all_printable_ascii(a),
        all_printable_ascii(b),
    ensures
        all_printable_ascii(a + b),
{
    assert forall|k: int| 0 <= k < (a + b).len() implies is_printable_ascii(#[trigger] (a + b)[k]) by {
        if k < a.len() {
            assert((a + b)[k] == a[k]);
        } else {
            assert((a + b)[k] == b[k - a.len()]);
        }
    }
}

/// Removing a character from a printable-ASCII line leaves one.
proof fn lemma_ascii_remove(a: Seq<char>, i: int)
    requires
        all_printable_ascii(a),
        0 <= i < a.len(),
    ensures
        all_printable_ascii(a.remove(i)),
{
    assert forall|k: int| 0 <= k < a.remove(i).len() implies is_printable_ascii(#[trigger] a.remove(i)[k]) by {
        if k < i {
            assert(a.remove(i)[k] == a[k]);
        } else {
            assert(a.remove(i)[k] == a[k + 1]);
        }
    }
}

/// Joining line `y` onto line `y - 1` of fitting lines, the joined line at
/// most twice as long, then re-wrapping it, leaves every line fitting.
proof fn lemma_merge_fit(ls: Seq<Seq<char>>, y: int, x: int, w: nat)
    requires
        0 < y < ls.len(),
        w >= 1,
        fits_ascii(ls, w),
    ensures
        fits_ascii(rewrap(ls.update(y - 1, ls[y - 1] + ls[y]).remove(y), x, y - 1, w, 0).0, w),
{
    let j = ls[y - 1] + ls[y];
    assert(all_printable_ascii(ls[y - 1]) && all_printable_ascii(ls[y]));
    lemma_ascii_join(ls[y - 1], ls[y]);
    let m = ls.update(y - 1, j).remove(y);
    assert forall|i: int| 0 <= i < m.len() implies all_printable_ascii(#[trigger] m[i]) by {
        if i < y - 1 {
            assert(m[i] == ls[i]);
        } else if i > y - 1 {
            assert(m[i] == ls[i + 1]);
        }
    }
    assert forall|i: int| 0 <= i < m.len() && i != y - 1 implies (#[trigger] m[i]).len() <= w by {
        if i < y - 1 {
            assert(m[i] == ls[i]);
        } else {
            assert(m[i] == ls[i + 1]);
        }
    }
    lemma_rewrap_fit(m, x, y - 1, w, 0);
}

/// Lines wrap within the width: from printable-ASCII lines that each fit
/// into `w` columns, any key (a typed character being printable ASCII)
/// leaves printable-ASCII lines that each fit.
pub proof fn lemma_key_keeps_fit(
    ls: Seq<Seq<char>>,
    x: int,
    y: int,
    key: EditKey,
    w: nat,
    max_total: nat,
)
    requires
        0 <= y < ls.len(),
        0 <= x <= ls[y].len(),
        w >= 1,
        fits_ascii(ls, w),
        key matches EditKey::Char(c) ==> is_printable_ascii(c),
    ensures
        fits_ascii(key_effect(ls, x, y, key, w, max_total).0, w),
{
    assert(all_printable_ascii(ls[y]));
    match key {
        EditKey::Char(c) => {
            if ls.flatten().len() < max_total {
                let l = ls[y].insert(x, c);
                assert forall|k: int| 0 <= k < l.len() implies is_printable_ascii(#[trigger] l[k]) by {
                    if k < x {
                        assert(l[k] == ls[y][k]);
                    } else if k > x {
                        assert(l[k] == ls[y][k - 1]);
                    }
                }
                let l1 = ls.update(y, l);
                lemma_rewrap_fit(l1, x + 1, y, w, 1);
            }
        },
        EditKey::Backspace => {
            if x > 0 {
                lemma_ascii_remove(ls[y], x - 1);
                let l1 = ls.update(y, ls[y].remove(x - 1));
                assert(fits_ascii(l1, w));
                if y > 0 && !too_wide(l1[y - 1] + l1[y], w) {
                    let j = l1[y - 1] + l1[y];
                    lemma_ascii_join(l1[y - 1], l1[y]);
                    lemma_merge_fit(l1, y, j.len() as int, w);
                } else {
                    lemma_rewrap_fit(l1, x - 1, y, w, 0);
                }
            } else if y > 0 {
                lemma_merge_fit(ls, y, ls[y - 1].len() as int, w);
            }
        },
        EditKey::Delete => {
            if x < ls[y].len() {
                lemma_ascii_remove(ls[y], x);
                let l1 = ls.update(y, ls[y].remove(x));
                lemma_rewrap_fit(l1, x, y, w, 0);
            } else if y + 1 < ls.len() {
                lemma_merge_fit(ls, y + 1, x, w);
            }
        },
        _ => {},
    }
}

/// The joined lines before line `y`, with the newline that ends them.
spec fn join_before(ls: Seq<Seq<char>>, y: int) -> Seq<char> {
    if y == 0 { Seq::<char>::empty() } else { join_lines(ls.take(y)) + seq!['\n'] }
}

/// The newline after line `y` and the joined lines after it.
spec fn join_after(ls: Seq<Seq<char>>, y: int) -> Seq<char> {
    if y == ls.len() - 1 { Seq::<char>::empty() } else { seq!['\n'] + join_lines(ls.skip(y + 1)) }
}

/// Joining two runs of lines puts a newline between them.
proof fn lemma_join_concat(a: Seq<Seq<char>>, b: Seq<Seq<char>>)
    requires
        a.len() > 0,
        b.len() > 0,
    ensures
        join_lines(a + b) == join_lines(a) + seq!['\n'] + join_lines(b),
    decreases b.len(),
{
    let ab = a + b;
    assert(ab.drop_last() =~= a + b.drop_last());
    assert(ab.last() == b.last());
    if b.len() == 1 {
        assert(a + b.drop_last() =~= a);
        assert(join_lines(b) == b[0]);
    } else {
        lemma_join_concat(a, b.drop_last());
        assert(join_lines(a) + seq!['\n'] + join_lines(b.drop_last()) + seq!['\n'] + b.last()
            =~= join_lines(a) + seq!['\n'] + (join_lines(b.drop_last()) + seq!['\n'] + b.last()));
    }
}

/// The joined lines are the line `y` with what comes before and after it.
proof fn lemma_join_at(ls: Seq<Seq<char>>, y: int)
    requires
        0 <= y < ls.len(),
    ensures
        join_lines(ls) == join_before(ls, y) + ls[y] + join_after(ls, y),
{
    let one = seq![ls[y]];
    assert(join_lines(one) == ls[y]);
    if y == 0 && y == ls.len() - 1 {
        assert(ls =~= one);
        assert(Seq::<char>::empty() + ls[y] + Seq::<char>::empty() =~= ls[y]);
    } else if y == 0 {
        assert(ls =~= one + ls.skip(1));
        lemma_join_concat(one, ls.skip(1));
        assert(Seq::<char>::empty() + ls[y] + (seq!['\n'] + join_lines(ls.skip(1))) =~= ls[y] + seq!['\n'] + join_lines(ls.skip(1)));
    } else if y == ls.len() - 1 {
        assert(ls =~= ls.take(y) + one);
        lemma_join_concat(ls.take(y), one);
        assert(join_lines(ls.take(y)) + seq!['\n'] + ls[y] + Seq::<char>::empty() =~= join_lines(ls.take(y)) + seq!['\n'] + ls[y]);
    } else {
        assert(ls =~= ls.take(y) + (one + ls.skip(y + 1)));
        lemma_join_concat(one, ls.skip(y + 1));
        lemma_join_concat(ls.take(y), one + ls.skip(y + 1));
        assert(join_lines(ls.take(y)) + seq!['\n'] + (ls[y] + seq!['\n'] + join_lines(ls.skip(y + 1)))
            =~= join_lines(ls.take(y)) + seq!['\n'] + ls[y] + (seq!['\n'] + join_lines(ls.skip(y + 1))));
    }
}

/// Joined lines hold each character of the lines and one newline between
/// two lines.
proof fn lemma_join_len(ls: Seq<Seq<char>>)
    requires
        ls.len() > 0,
    ensures
        join_lines(ls).len() == ls.flatten().len() + ls.len() - 1,
    decreases ls.len(),
{
    ls.lemma_flatten_and_flatten_alt_are_equivalent();
    if ls.len() > 1 {
        lemma_join_len(ls.drop_last());
        ls.drop_last().lemma_flatten_and_flatten_alt_are_equivalent();
    } else {
        ls.drop_last().lemma_flatten_and_flatten_alt_are_equivalent();
        assert(ls.drop_last() =~= Seq::<Seq<char>>::empty());
    }
}

/// The cursor `(x, y)`'s place in the joined lines.
proof fn lemma_join_before_len(ls: Seq<Seq<char>>, y: int)
    requires
        0 <= y < ls.len(),
    ensures
        join_before(ls, y).len() == ls.take(y).flatten().len() + y,
{
    if y > 0 {
        lemma_join_len(ls.take(y));
    } else {
        assert(ls.take(0) =~= Seq::<Seq<char>>::empty());
    }
}

/// Changing line `y` changes the joined lines only there.
proof fn lemma_join_update(ls: Seq<Seq<char>>, y: int, l: Seq<char>)
    requires
        0 <= y < ls.len(),
    ensures
        join_lines(ls.update(y, l)) == join_before(ls, y) + l + join_after(ls, y),
{
    let u = ls.update(y, l);
    lemma_join_at(u, y);
    assert(u.take(y) =~= ls.take(y));
    assert(u.skip(y + 1) =~= ls.skip(y + 1));
}

/// Taking out the newline between `a` and `b` joins them.
proof fn lemma_remove_newline(pre: Seq<char>, a: Seq<char>, b: Seq<char>, post: Seq<char>)
    ensures
        (pre + a + (seq!['\n'] + (b + post)))[pre.len() + a.len() as int] == '\n',
        (pre + a + (seq!['\n'] + (b + post))).remove(pre.len() + a.len() as int) == pre + (a + b) + post,
{
    let whole = pre + a + (seq!['\n'] + (b + post));
    let k = pre.len() + a.len() as int;
    assert(whole[k] == '\n');
    assert(whole.remove(k) =~= pre + (a + b) + post);
}

/// The lines from `y` on, joined, are line `y` and what comes after it.
proof fn lemma_join_from(ls: Seq<Seq<char>>, y: int)
    requires
        0 <= y < ls.len(),
    ensures
        join_lines(ls.skip(y)) == ls[y] + join_after(ls, y),
{
    let rest = ls.skip(y);
    lemma_join_at(rest, 0);
    assert(rest.take(0) =~= Seq::<Seq<char>>::empty());
    assert(rest.skip(1) =~= ls.skip(y + 1));
    assert(Seq::<char>::empty() + ls[y] =~= ls[y]);
}

/// Joining line `y` onto line `y - 1` removes the newline between them.
#[verifier::rlimit(30)]
proof fn lemma_join_merge(ls: Seq<Seq<char>>, y: int)
    requires
        0 < y < ls.len(),
    ensures
        join_lines(ls.update(y - 1, ls[y - 1] + ls[y]).remove(y))
            == join_lines(ls).remove(join_before(ls, y - 1).len() + ls[y - 1].len() as int),
        join_lines(ls)[join_before(ls, y - 1).len() + ls[y - 1].len() as int] == '\n',
{
    let a = ls[y - 1];
    let b = ls[y];
    let pre = join_before(ls, y - 1);
    let post = join_after(ls, y);
    let m = ls.update(y - 1, a + b).remove(y);
    lemma_join_at(m, y - 1);
    assert(m.take(y - 1) =~= ls.take(y - 1));
    assert(m.skip(y) =~= ls.skip(y + 1));
    assert(join_before(m, y - 1) == pre);
    assert(join_after(m, y - 1) == post);
    assert(m[y - 1] == a + b);
    lemma_join_at(ls, y - 1);
    lemma_join_from(ls, y);
    assert(join_after(ls, y - 1) == seq!['\n'] + (b + post));
    lemma_remove_newline(pre, a, b, post);
}

/// The place of the cursor `(x, y)` in the joined lines.
spec fn text_pos(ls: Seq<Seq<char>>, x: int, y: int) -> int {
    ls.take(y).flatten().len() + y + x
}

/// The characters before line `y` are those before line `y - 1` and the
/// characters of line `y - 1`.
proof fn lemma_take_flatten_step(ls: Seq<Seq<char>>, y: int)
    requires
        0 < y <= ls.len(),
    ensures
        ls.take(y).flatten().len() == ls.take(y - 1).flatten().len() + ls[y - 1].len(),
{
    assert(ls.take(y).drop_last() =~= ls.take(y - 1));
    assert(ls.take(y).last() == ls[y - 1]);
    ls.take(y).lemma_flatten_and_flatten_alt_are_equivalent();
    ls.take(y - 1).lemma_flatten_and_flatten_alt_are_equivalent();
}

/// A typed character that leaves its line narrow enough is inserted at the
/// cursor's place in the joined lines.
proof fn lemma_text_char(ls: Seq<Seq<char>>, x: int, y: int, c: char, w: nat, max_total: nat)
    requires
        0 <= y < ls.len(),
        0 <= x <= ls[y].len(),
        ls.flatten().len() < max_total,
        !too_wide(ls[y].insert(x, c), w),
    ensures
        join_lines(key_effect(ls, x, y, EditKey::Char(c), w, max_total).0)
            == join_lines(ls).insert(text_pos(ls, x, y), c),
{
    let l = ls[y].insert(x, c);
    lemma_join_at(ls, y);
    lemma_join_before_len(ls, y);
    lemma_join_update(ls, y, l);
    assert(ls.update(y, l)[y] == l);
    let pre = join_before(ls, y);
    let post = join_after(ls, y);
    assert(pre + l + post =~= (pre + ls[y] + post).insert(text_pos(ls, x, y), c));
}

/// Delete inside a line that stays narrow enough removes the character at
/// the cursor's place.
proof fn lemma_text_delete_in(ls: Seq<Seq<char>>, x: int, y: int, w: nat, max_total: nat)
    requires
        0 <= y < ls.len(),
        0 <= x < ls[y].len(),
        !too_wide(ls[y].remove(x), w),
    ensures
        join_lines(key_effect(ls, x, y, EditKey::Delete, w, max_total).0)
            == join_lines(ls).remove(text_pos(ls, x, y)),
{
    let l = ls[y].remove(x);
    lemma_join_at(ls, y);
    lemma_join_before_len(ls, y);
    lemma_join_update(ls, y, l);
    assert(ls.update(y, l)[y] == l);
    let pre = join_before(ls, y);
    let post = join_after(ls, y);
    assert(pre + l + post =~= (pre + ls[y] + post).remove(text_pos(ls, x, y)));
}

/// Delete at the end of a line that is not the last removes the newline at
/// the cursor's place, where the joined line stays narrow enough.
proof fn lemma_text_delete_join(ls: Seq<Seq<char>>, x: int, y: int, w: nat, max_total: nat)
    requires
        0 <= y,
        y + 1 < ls.len(),
        x == ls[y].len(),
        !too_wide(ls[y] + ls[y + 1], w),
    ensures
        join_lines(ls)[text_pos(ls, x, y)] == '\n',
        join_lines(key_effect(ls, x, y, EditKey::Delete, w, max_total).0)
            == join_lines(ls).remove(text_pos(ls, x, y)),
{
    lemma_join_merge(ls, y + 1);
    lemma_join_before_len(ls, y);
    let m = ls.update(y, ls[y] + ls[y + 1]).remove(y + 1);
    assert(m == ls.update(y + 1 - 1, ls[y + 1 - 1] + ls[y + 1]).remove(y + 1));
    assert(m[y] == ls[y] + ls[y + 1]);
}

/// Backspace at the start of a line that is not the first removes the
/// newline before the cursor's place, where the joined line stays narrow
/// enough.
proof fn lemma_text_backspace_join(ls: Seq<Seq<char>>, y: int, w: nat, max_total: nat)
    requires
        0 < y < ls.len(),
        !too_wide(ls[y - 1] + ls[y], w),
    ensures
        join_lines(ls)[text_pos(ls, 0, y) - 1] == '\n',
        join_lines(key_effect(ls, 0, y, EditKey::Backspace, w, max_total).0)
            == join_lines(ls).remove(text_pos(ls, 0, y) - 1),
{
    lemma_join_merge(ls, y);
    lemma_join_before_len(ls, y - 1);
    lemma_take_flatten_step(ls, y);
    let m = ls.update(y - 1, ls[y - 1] + ls[y]).remove(y);
    assert(m[y - 1] == ls[y - 1] + ls[y]);
}

/// Backspace inside a line that stays narrow enough, and that then does not
/// fit after the line above (or is the first), removes the character before
/// the cursor's place.
proof fn lemma_text_backspace_in(ls: Seq<Seq<char>>, x: int, y: int, w: nat, max_total: nat)
    requires
        0 <= y < ls.len(),
        0 < x <= ls[y].len(),
        y == 0 || too_wide(ls[y - 1] + ls[y].remove(x - 1), w),
        !too_wide(ls[y].remove(x - 1), w),
    ensures
        join_lines(key_effect(ls, x, y, EditKey::Backspace, w, max_total).0)
            == join_lines(ls).remove(text_pos(ls, x, y) - 1),
{
    let l = ls[y].remove(x - 1);
    let l1 = ls.update(y, l);
    lemma_join_at(ls, y);
    lemma_join_before_len(ls, y);
    lemma_join_update(ls, y, l);
    assert(l1[y] == l);
    assert(y > 0 ==> l1[y - 1] == ls[y - 1]);
    let pre = join_before(ls, y);
    let post = join_after(ls, y);
    assert(pre + l + post =~= (pre + ls[y] + post).remove(text_pos(ls, x, y) - 1));
}

/// Backspace inside a line that then fits after the line above removes the
/// character before the cursor's place and the newline that starts the line.
proof fn lemma_text_backspace_merge(ls: Seq<Seq<char>>, x: int, y: int, w: nat, max_total: nat)
    requires
        0 < y < ls.len(),
        0 < x <= ls[y].len(),
        !too_wide(ls[y - 1] + ls[y].remove(x - 1), w),
    ensures
        join_lines(ls)[text_pos(ls, x, y) - x - 1] == '\n',
        join_lines(key_effect(ls, x, y, EditKey::Backspace, w, max_total).0)
            == join_lines(ls).remove(text_pos(ls, x, y) - 1).remove(text_pos(ls, x, y) - x - 1),
{
    let l = ls[y].remove(x - 1);
    let l1 = ls.update(y, l);
    assert(l1[y] == l);
    assert(l1[y - 1] == ls[y - 1]);
    lemma_join_at(ls, y);
    lemma_join_before_len(ls, y);
    lemma_join_update(ls, y, l);
    let pre = join_before(ls, y);
    let post = join_after(ls, y);
    assert(pre + l + post =~= (pre + ls[y] + post).remove(text_pos(ls, x, y) - 1));
    lemma_join_merge(l1, y);
    lemma_join_at(ls, y - 1);
    assert(l1.take(y) =~= ls.take(y));
    assert(l1.take(y - 1) =~= ls.take(y - 1));
    lemma_join_before_len(ls, y - 1);
    lemma_join_before_len(l1, y - 1);
    lemma_take_flatten_step(ls, y);
    let m = l1.update(y - 1, l1[y - 1] + l1[y]).remove(y);
    assert(m[y - 1] == l1[y - 1] + l1[y]);
}

/// What a key does to the submitted text (the lines joined with newlines),
/// `p` being the cursor's place in that text, where the edited line is not
/// broken again: a character typed while there is room is inserted at `p`;
/// Delete removes the character at `p`, which at the end of a line that is
/// not the last is the newline joining the next line on; Backspace removes
/// the character before `p`, which at the start of a line that is not the
/// first is the newline joining the line to the one above (and inside a
/// line, where the shortened line then fits after the one above, that
/// newline too); moving keys, Enter and Esc leave the lines as they are.
pub proof fn lemma_key_text(
    ls: Seq<Seq<char>>,
    x: int,
    y: int,
    key: EditKey,
    w: nat,
    max_total: nat,
)
    requires
        0 <= y < ls.len(),
        0 <= x <= ls[y].len(),
    ensures
        ({
            let j = join_lines(ls);
            let p = ls.take(y).flatten().len() + y + x;
            let r = key_effect(ls, x, y, key, w, max_total).0;
            &&& key matches EditKey::Char(c) ==> (ls.flatten().len() < max_total && !too_wide(ls[y].insert(x, c), w)
                ==> join_lines(r) == j.insert(p, c))
            &&& (key == EditKey::Delete && x < ls[y].len() && !too_wide(ls[y].remove(x), w))
                ==> join_lines(r) == j.remove(p)
            &&& (key == EditKey::Delete && x == ls[y].len() && y + 1 < ls.len() && !too_wide(ls[y] + ls[y + 1], w))
                ==> j[p] == '\n' && join_lines(r) == j.remove(p)
            &&& (key == EditKey::Backspace && x == 0 && y > 0 && !too_wide(ls[y - 1] + ls[y], w))
                ==> j[p - 1] == '\n' && join_lines(r) == j.remove(p - 1)
            &&& (key == EditKey::Backspace && x > 0 && (y == 0 || too_wide(ls[y - 1] + ls[y].remove(x - 1), w))
                && !too_wide(ls[y].remove(x - 1), w)) ==> join_lines(r) == j.remove(p - 1)
            &&& (key == EditKey::Backspace && x > 0 && y > 0 && !too_wide(ls[y - 1] + ls[y].remove(x - 1), w))
                ==> j[p - x - 1] == '\n' && join_lines(r) == j.remove(p - 1).remove(p - x - 1)
            &&& !(key is Char || key is Delete || key is Backspace) ==> r == ls
        }),
{
    match key {
        EditKey::Char(c) => {
            if ls.flatten().len() < max_total && !too_wide(ls[y].insert(x, c), w) {
                lemma_text_char(ls, x, y, c, w, max_total);
            }
        },
        EditKey::Delete => {
            if x < ls[y].len() && !too_wide(ls[y].remove(x), w) {
                lemma_text_delete_in(ls, x, y, w, max_total);
            }
            if x == ls[y].len() && y + 1 < ls.len() && !too_wide(ls[y] + ls[y + 1], w) {
                lemma_text_delete_join(ls, x, y, w, max_total);
            }
        },
        EditKey::Backspace => {
            if x == 0 && y > 0 && !too_wide(ls[y - 1] + ls[y], w) {
                lemma_text_backspace_join(ls, y, w, max_total);
            }
            if x > 0 && (y == 0 || too_wide(ls[y - 1] + ls[y].remove(x - 1), w)) && !too_wide(ls[y].remove(x - 1), w) {
                lemma_text_backspace_in(ls, x, y, w, max_total);
            }
            if x > 0 && y > 0 && !too_wide(ls[y - 1] + ls[y].remove(x - 1), w) {
                lemma_text_backspace_merge(ls, x, y, w, max_total);
            }
        },
        _ => {},
    }
}

/// Left and Right move the cursor by one character of the submitted text,
/// across the newline between two lines too, and stop at its start and its
/// end; neither changes the lines, and each undoes the other. Home and End
/// go to the start and the end of the cursor's line.
pub proof fn lemma_key_moves(ls: Seq<Seq<char>>, x: int, y: int, w: nat, max_total: nat)
    requires
        0 <= y < ls.len(),
        0 <= x <= ls[y].len(),
    ensures
        ({
            let p = ls.take(y).flatten().len() + y + x;
            let l = key_effect(ls, x, y, EditKey::Left, w, max_total);
            let r = key_effect(ls, x, y, EditKey::Right, w, max_total);
            &&& l.0 == ls && r.0 == ls
            &&& 0 <= l.2 < ls.len() && 0 <= l.1 <= ls[l.2].len()
            &&& 0 <= r.2 < ls.len() && 0 <= r.1 <= ls[r.2].len()
            &&& (x > 0 || y > 0) ==> ls.take(l.2).flatten().len() + l.2 + l.1 == p - 1
            &&& (x == 0 && y == 0) ==> l.1 == x && l.2 == y
            &&& (x < ls[y].len() || y + 1 < ls.len()) ==> ls.take(r.2).flatten().len() + r.2 + r.1 == p + 1
            &&& (x == ls[y].len() && y + 1 == ls.len()) ==> r.1 == x && r.2 == y
            &&& (x > 0 || y > 0) ==> key_effect(ls, l.1, l.2, EditKey::Right, w, max_total) == (ls, x, y)
            &&& (x < ls[y].len() || y + 1 < ls.len()) ==> key_effect(ls, r.1, r.2, EditKey::Left, w, max_total) == (ls, x, y)
            &&& key_effect(ls, x, y, EditKey::Home, w, max_total) == (ls, 0int, y)
            &&& key_effect(ls, x, y, EditKey::End, w, max_total) == (ls, ls[y].len() as int, y)
        }),
{
    if x == 0 && y > 0 {
        lemma_take_flatten_step(ls, y);
    }
    if x == ls[y].len() && y + 1 < ls.len() {
        lemma_take_flatten_step(ls, y + 1);
    }
}

/// The first line in view once the cursor's line `y` is brought into a view
/// of [`INPUT_ROWS`] lines that started at line `scroll`.
pub open spec fn follow_line(scroll: int, y: int) -> int {
    let s1 = if y < scroll { y } else { scroll };
    if y >= s1 + INPUT_ROWS { y - (INPUT_ROWS - 1) } else { s1 }
}

/// A line as the input area shows it in `vml` columns: a line too wide is
/// cut to `vml - 1` columns and ends in `…`.
pub open spec fn shown_line(l: Seq<char>, vml: nat) -> Seq<char> {
    if str_table_width(l) > vml {
        cut_to_width(l, (vml - 1) as nat).push('…')
    } else {
        l
    }
}

/// What a multi-line popup shows: the rows of its input area, and where the
/// cursor stands relative to the area's top-left corner.
pub struct TextView {
    pub rows: Vec<String>,
    pub cursor_col: u16,
    pub cursor_row: u16,
}

/// The editor of a multi-line popup: the lines, the cursor (column
/// `cursor_x` of line `cursor_y`), the first line in view, the most
/// characters the text takes and the widest a line may grow.
pub struct TextEditor {
    pub lines: Vec<Vec<char>>,
    pub cursor_x: usize,
    pub cursor_y: usize,
    pub scroll: usize,
    pub max_total: usize,
    pub max_width: usize,
}

impl TextEditor {
    /// The lines as character sequences.
    pub open spec fn text(&self) -> Seq<Seq<char>> {
        views(self.lines@)
    }

    /// There is always a line, and the cursor stands on the text.
    pub open spec fn wf(&self) -> bool {
        &&& self.lines@.len() >= 1
        &&& self.cursor_y < self.lines@.len()
        &&& self.cursor_x <= self.lines@[self.cursor_y as int]@.len()
    }

    /// An editor holding the lines of `initial` wrapped to `max_width`
    /// columns, the cursor at the start, taking at most `max_total` characters.
    pub fn new(initial: &str, max_total: usize, max_width: usize) -> (e: TextEditor)
        ensures
            e.wf(),
            e.text() == initial_lines(initial@, max_width as nat),
            e.cursor_x == 0,
            e.cursor_y == 0,
            e.scroll == 0,
            e.max_total == max_total,
            e.max_width == max_width,
    {
        let mut lines = split_lines(initial);
        if lines.len() == 0 {
            lines.push(Vec::new());
            assert(views(lines@) =~= seq![Seq::<char>::empty()]);
        }
        let wrapped = wrap_lines(&lines, max_width);
        proof {
            lemma_wrap_all_len(views(lines@), max_width as nat);
        }
        TextEditor { lines: wrapped, cursor_x: 0, cursor_y: 0, scroll: 0, max_total, max_width }
    }

    /// The answer of the popup: the lines joined with `\n`, or nothing when
    /// that is empty.
    pub fn result(&self) -> (r: Option<String>)
        ensures
            join_lines(self.text()).len() == 0 ==> r is None,
            join_lines(self.text()).len() > 0 ==> (r matches Some(s) && s@ == join_lines(self.text())),
    {
        let mut all: Vec<char> = Vec::new();
        let mut i: usize = 0;
        while i < self.lines.len()
            invariant
                i <= self.lines@.len(),
                all@ == join_lines(self.text().take(i as int)),
            decreases self.lines@.len() - i,
        {
            proof {
                let t = self.text();
                assert(t.take(i + 1).drop_last() =~= t.take(i as int));
                assert(t.take(i + 1).last() == self.lines@[i as int]@);
                if i == 0 {
                    assert(t.take(1)[0] == self.lines@[0]@);
                }
            }
            if i > 0 {
                all.push('\n');
            }
            all = join_chars(&all, &self.lines[i]);
            i += 1;
        }
        assert(self.text().take(self.lines@.len() as int) =~= self.text());
        if all.len() == 0 {
            None
        } else {
            Some(string_of(&all))
        }
    }

    /// The lines and the cursor, as one value.
    pub open spec fn model(&self) -> (Seq<Seq<char>>, int, int) {
        (self.text(), self.cursor_x as int, self.cursor_y as int)
    }

    /// Whether the text holds fewer than `limit` characters.
    fn total_below(&self, limit: usize) -> (r: bool)
        ensures
            r == (self.text().flatten().len() < limit),
    {
        let ghost t = self.text();
        if limit == 0 {
            return false;
        }
        let mut acc: usize = 0;
        let mut i: usize = 0;
        while i < self.lines.len()
            invariant
                i <= self.lines@.len(),
                t == self.text(),
                acc == t.take(i as int).flatten().len(),
                acc < limit,
            decreases self.lines@.len() - i,
        {
            proof {
                assert(t.take(i + 1) =~= t.take(i as int).push(t[i as int]));
                t.take(i as int).lemma_flatten_push(t[i as int]);
                lemma_flatten_concat(t.take(i + 1), t.skip(i + 1));
                assert(t.take(i + 1) + t.skip(i + 1) =~= t);
            }
            let n = self.lines[i].len();
            if n >= limit - acc {
                return false;
            }
            acc = acc + n;
            i += 1;
        }
        assert(t.take(self.lines@.len() as int) =~= t);
        true
    }

    /// Breaks the cursor's line when it has grown wider than `w` columns, and
    /// then puts the cursor at column `col` of the new line.
    fn rewrap_cursor_line(&mut self, w: usize, col: usize)
        requires
            old(self).cursor_y < old(self).lines@.len(),
        ensures
            ({
                let r = rewrap(old(self).text(), old(self).cursor_x as int, old(self).cursor_y as int, w as nat, col as int);
                &&& final(self).text() == r.0
                &&& final(self).cursor_x == r.1
                &&& final(self).cursor_y == r.2
            }),
            final(self).lines@.len() >= old(self).lines@.len(),
            final(self).scroll == old(self).scroll,
            final(self).max_total == old(self).max_total,
            final(self).max_width == old(self).max_width,
    {
        let y = self.cursor_y;
        let _n = self.lines.len();
        let wide = chars_width(&self.lines[y]) > w;
        if wide {
            let (a, b) = split_chars_by_width(&self.lines[y], w);
            proof {
                lemma_views_update(self.lines@, y as int, a);
            }
            self.lines.set(y, a);
            proof {
                lemma_views_insert(self.lines@, y + 1, b);
            }
            self.lines.insert(y + 1, b);
            self.cursor_y = y + 1;
            self.cursor_x = col;
        }
    }

    /// Backspace: deletes the character before the cursor, joining the line
    /// to the one above when the two fit together; at the start of a line,
    /// joins it to the line above.
    fn backspace(&mut self, w: usize)
        requires
            old(self).wf(),
        ensures
            ({
                let r = key_effect(old(self).text(), old(self).cursor_x as int, old(self).cursor_y as int, EditKey::Backspace, w as nat, old(self).max_total as nat);
                &&& final(self).text() == r.0
                &&& final(self).cursor_x == r.1
                &&& final(self).cursor_y == r.2
            }),
            final(self).lines@.len() >= 1,
            final(self).scroll == old(self).scroll,
            final(self).max_total == old(self).max_total,
            final(self).max_width == old(self).max_width,
    {
        let x = self.cursor_x;
        let y = self.cursor_y;
        if x > 0 {
            let mut l = copy_chars(&self.lines[y]);
            l.remove(x - 1);
            proof {
                lemma_views_update(self.lines@, y as int, l);
            }
            self.lines.set(y, l);
            self.cursor_x = x - 1;
            if y > 0 {
                let j = join_chars(&self.lines[y - 1], &self.lines[y]);
                let fits = !(chars_width(&j) > w);
                if fits {
                    let jl = j.len();
                    proof {
                        lemma_views_update(self.lines@, y - 1, j);
                    }
                    self.lines.set(y - 1, j);
                    proof {
                        lemma_views_remove(self.lines@, y as int);
                    }
                    let _ = self.lines.remove(y);
                    self.cursor_y = y - 1;
                    self.cursor_x = jl;
                }
            }
            self.rewrap_cursor_line(w, 0);
        } else if y > 0 {
            let prev_len = self.lines[y - 1].len();
            let j = join_chars(&self.lines[y - 1], &self.lines[y]);
            proof {
                lemma_views_update(self.lines@, y - 1, j);
            }
            self.lines.set(y - 1, j);
            proof {
                lemma_views_remove(self.lines@, y as int);
            }
            let _ = self.lines.remove(y);
            self.cursor_y = y - 1;
            self.cursor_x = prev_len;
            self.rewrap_cursor_line(w, 0);
        }
    }

    /// Delete: deletes the character after the cursor; at the end of a line,
    /// joins the next line to it.
    fn delete(&mut self, w: usize)
        requires
            old(self).wf(),
        ensures
            ({
                let r = key_effect(old(self).text(), old(self).cursor_x as int, old(self).cursor_y as int, EditKey::Delete, w as nat, old(self).max_total as nat);
                &&& final(self).text() == r.0
                &&& final(self).cursor_x == r.1
                &&& final(self).cursor_y == r.2
            }),
            final(self).lines@.len() >= 1,
            final(self).scroll == old(self).scroll,
            final(self).max_total == old(self).max_total,
            final(self).max_width == old(self).max_width,
    {
        let x = self.cursor_x;
        let y = self.cursor_y;
        if x < self.lines[y].len() {
            let mut l = copy_chars(&self.lines[y]);
            l.remove(x);
            proof {
                lemma_views_update(self.lines@, y as int, l);
            }
            self.lines.set(y, l);
            self.rewrap_cursor_line(w, 0);
        } else if y < self.lines.len() - 1 {
            let j = join_chars(&self.lines[y], &self.lines[y + 1]);
            proof {
                lemma_views_update(self.lines@, y as int, j);
            }
            self.lines.set(y, j);
            proof {
                lemma_views_remove(self.lines@, y + 1);
            }
            let _ = self.lines.remove(y + 1);
            self.rewrap_cursor_line(w, 0);
        }
    }

    /// A typed character: inserted at the cursor while the text is shorter
    /// than its limit; a line that grows too wide is split and the cursor
    /// goes to column 1 of the new line.
    fn type_char(&mut self, c: char, w: usize)
        requires
            old(self).wf(),
        ensures
            ({
                let r = key_effect(old(self).text(), old(self).cursor_x as int, old(self).cursor_y as int, EditKey::Char(c), w as nat, old(self).max_total as nat);
                &&& final(self).text() == r.0
                &&& final(self).cursor_x == r.1
                &&& final(self).cursor_y == r.2
            }),
            final(self).lines@.len() >= 1,
            final(self).scroll == old(self).scroll,
            final(self).max_total == old(self).max_total,
            final(self).max_width == old(self).max_width,
    {
        let x = self.cursor_x;
        let y = self.cursor_y;
        if self.total_below(self.max_total) {
            proof {
                let t = self.text();
                t.lemma_flatten_length_ge_single_element_length(y as int);
                t.lemma_flatten_and_flatten_alt_are_equivalent();
            }
            let mut l = copy_chars(&self.lines[y]);
            l.insert(x, c);
            proof {
                lemma_views_update(self.lines@, y as int, l);
            }
            self.lines.set(y, l);
            self.cursor_x = x + 1;
            self.rewrap_cursor_line(w, 1);
        }
    }

    /// Handles one key in a popup `popup_width` columns wide: Esc cancels,
    /// Enter submits, any other key changes the lines and the cursor as
    /// [`key_effect`] says (lines wrap at the narrower of the popup's input
    /// width and `max_width`), after which the cursor is brought back onto
    /// the text.
    pub fn handle_key(&mut self, key: EditKey, popup_width: u16) -> (out: EditOutcome)
        requires
            old(self).wf(),
            popup_width >= 8,
        ensures
            final(self).wf(),
            final(self).scroll == old(self).scroll,
            final(self).max_total == old(self).max_total,
            final(self).max_width == old(self).max_width,
            out == match key {
                EditKey::Esc => EditOutcome::Cancel,
                EditKey::Enter => EditOutcome::Submit,
                _ => EditOutcome::Continue,
            },
            (key is Esc || key is Enter) ==> final(self).model() == old(self).model(),
            !(key is Esc || key is Enter) ==> final(self).model() == clamp_cursor(key_effect(
                old(self).text(),
                old(self).cursor_x as int,
                old(self).cursor_y as int,
                key,
                min_of(popup_width - 8, old(self).max_width as int) as nat,
                old(self).max_total as nat,
            )),
    {
        let vw: usize = (popup_width - 8) as usize;
        let w: usize = if vw < self.max_width { vw } else { self.max_width };
        let x = self.cursor_x;
        let y = self.cursor_y;
        match key {
            EditKey::Esc => {
                return EditOutcome::Cancel;
            },
            EditKey::Enter => {
                return EditOutcome::Submit;
            },
            EditKey::Backspace => self.backspace(w),
            EditKey::Delete => self.delete(w),
            EditKey::Char(c) => self.type_char(c, w),
            EditKey::Left => {
                if x > 0 {
                    self.cursor_x = x - 1;
                } else if y > 0 {
                    self.cursor_y = y - 1;
                    self.cursor_x = self.lines[y - 1].len();
                }
            },
            EditKey::Right => {
                if x < self.lines[y].len() {
                    self.cursor_x = x + 1;
                } else if y < self.lines.len() - 1 {
                    self.cursor_y = y + 1;
                    self.cursor_x = 0;
                }
            },
            EditKey::Up => {
                if y > 0 {
                    self.cursor_y = y - 1;
                    let n = self.lines[y - 1].len();
                    if x > n {
                        self.cursor_x = n;
                    }
                }
            },
            EditKey::Down => {
                if y < self.lines.len() - 1 {
                    self.cursor_y = y + 1;
                    let n = self.lines[y + 1].len();
                    if x > n {
                        self.cursor_x = n;
                    }
                }
            },
            EditKey::Home => {
                self.cursor_x = 0;
            },
            EditKey::End => {
                self.cursor_x = self.lines[y].len();
            },
            EditKey::PageUp => {
                let y2 = if y >= INPUT_ROWS { y - INPUT_ROWS } else { 0 };
                self.cursor_y = y2;
                let n = self.lines[y2].len();
                if x > n {
                    self.cursor_x = n;
                }
            },
            EditKey::PageDown => {
                let last = self.lines.len() - 1;
                let y2 = if last - y >= INPUT_ROWS { y + INPUT_ROWS } else { last };
                self.cursor_y = y2;
                let n = self.lines[y2].len();
                if x > n {
                    self.cursor_x = n;
                }
            },
            _ => {},
        }
        if self.cursor_y >= self.lines.len() {
            self.cursor_y = self.lines.len() - 1;
        }
        let n = self.lines[self.cursor_y].len();
        if self.cursor_x > n {
            self.cursor_x = n;
        }
        EditOutcome::Continue
    }

    /// Scrolls the view of a popup `popup_width` columns wide so that the
    /// cursor's line shows, and gives what the input area shows: up to
    /// [`INPUT_ROWS`] lines from the scroll on, each as [`shown_line`] cuts
    /// it, and the cursor's place, its column held inside the area.
    pub fn layout(&mut self, popup_width: u16) -> (v: TextView)
        requires
            old(self).wf(),
            popup_width >= 9,
            3 * old(self).lines@[old(self).cursor_y as int]@.len() <= usize::MAX,
        ensures
            final(self).wf(),
            final(self).model() == old(self).model(),
            final(self).max_total == old(self).max_total,
            final(self).max_width == old(self).max_width,
            final(self).scroll == follow_line(old(self).scroll as int, old(self).cursor_y as int),
            ({
                let t = old(self).text();
                let s = final(self).scroll as int;
                let n = min_of(INPUT_ROWS as int, t.len() - s);
                let vml = (popup_width - 8) as nat;
                let cv = cols(t[old(self).cursor_y as int].take(old(self).cursor_x as int));
                &&& v.rows@.len() == n
                &&& forall|i: int| 0 <= i < n ==> (#[trigger] v.rows@[i])@ == shown_line(t[s + i], vml)
                &&& v.cursor_col == min_of((cv as u16) as int, popup_width - 6)
                &&& v.cursor_row == old(self).cursor_y - s
            }),
    {
        let y = self.cursor_y;
        if y < self.scroll {
            self.scroll = y;
        }
        if y >= self.scroll && y - self.scroll >= INPUT_ROWS {
            self.scroll = y - (INPUT_ROWS - 1);
        }
        let s = self.scroll;
        let vml: usize = (popup_width - 8) as usize;
        let ghost t = self.text();
        let mut rows: Vec<String> = Vec::new();
        let mut i: usize = s;
        while i < self.lines.len() && i - s < INPUT_ROWS
            invariant
                s <= i <= self.lines@.len(),
                i - s <= INPUT_ROWS,
                vml == popup_width - 8,
                vml >= 1,
                t == self.text(),
                rows@.len() == i - s,
                forall|k: int| 0 <= k < i - s ==> (#[trigger] rows@[k])@ == shown_line(t[s + k], vml as nat),
            decreases self.lines@.len() - i,
        {
            let line = string_of(&self.lines[i]);
            let row = if visual_width(line.as_str()) > vml {
                let mut d = truncate_by_width(line.as_str(), vml - 1);
                crate::text::push_char(&mut d, '…');
                d
            } else {
                line
            };
            rows.push(row);
            i += 1;
        }
        let line = string_of(&self.lines[y]);
        let cv = visual_offset(line.as_str(), self.cursor_x);
        let limit: u16 = popup_width - 6;
        let c16: u16 = cv as u16;
        let cursor_col: u16 = if c16 < limit { c16 } else { limit };
        let cursor_row: u16 = (y - s) as u16;
        TextView { rows, cursor_col, cursor_row }
    }
}

} // verus!
