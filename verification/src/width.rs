//! Display-width arithmetic: how many terminal columns text takes, and how
//! text is cut to fit a number of columns.

use vstd::prelude::*;
use crate::text::{chars_of, string_of};

verus! {

/// What `UnicodeWidthChar::width` returns for a character.
pub uninterp spec fn char_table_width(c: char) -> Option<usize>;

/// What `UnicodeWidthStr::width` returns for a string.
pub uninterp spec fn str_table_width(s: Seq<char>) -> usize;

/// Whether `c` is one of the control characters that unicode-width gives no width.
pub open spec fn is_control_char(c: char) -> bool {
    (c as u32) < 0x20 || (0x7F <= (c as u32) && (c as u32) < 0xA0)
}

/// `UnicodeWidthChar::width` of unicode-width: `None` exactly for the control
/// characters (U+0000..U+001F, U+007F..U+009F), 1 for printable ASCII, and
/// otherwise a table value, which the crate's rules never make larger than 3.
#[verifier::external_body]
fn char_width(c: char) -> (w: Option<usize>)
    ensures
        w == char_table_width(c),
        w is None <==> is_control_char(c),
        (0x20 <= (c as u32) && (c as u32) < 0x7F) ==> w == Some(1usize),
        w matches Some(n) ==> n <= 3,
{
    unicode_width::UnicodeWidthChar::width(c)
}

/// `UnicodeWidthStr::width` of unicode-width. The crate documents that a string
/// of printable ASCII characters is as wide as it is long; all other results
/// are left to the name `str_table_width`.
#[verifier::external_body]
fn str_width(s: &str) -> (w: usize)
    ensures
        w == str_table_width(s@),
        (forall|i: int| 0 <= i < s@.len() ==> 0x20 <= (#[trigger] s@[i] as u32) && (s@[i] as u32) < 0x7F)
            ==> w == s@.len(),
{
    unicode_width::UnicodeWidthStr::width(s)
}

/// Columns taken by one character when it is laid out on its own: one for
/// printable ASCII, else its table width, or 1 for a control character.
pub open spec fn col_width(c: char) -> nat {
    if is_printable_ascii(c) {
        1
    } else {
        match char_table_width(c) {
            Some(w) => w as nat,
            None => 1,
        }
    }
}

/// Whether `c` is a printable ASCII character (U+0020..U+007E), one column
/// wide in unicode-width.
pub open spec fn is_printable_ascii(c: char) -> bool {
    0x20 <= (c as u32) && (c as u32) < 0x7F
}

/// The columns one character takes when laid out on its own.
pub fn char_cols(c: char) -> (w: usize)
    ensures
        w == col_width(c),
        1 <= w <= 3 || (w == 0 && char_table_width(c) == Some(0usize)),
{
    match char_width(c) {
        Some(x) => x,
        None => 1,
    }
}

/// Columns taken by a sequence of characters laid out one by one.
pub open spec fn cols(s: Seq<char>) -> nat
    decreases s.len(),
{
    if s.len() == 0 {
        0
    } else {
        cols(s.drop_last()) + col_width(s.last())
    }
}

/// `cols` never decreases as a prefix grows.
pub proof fn lemma_cols_prefix(s: Seq<char>, i: int, j: int)
    requires
        0 <= i <= j <= s.len(),
    ensures
        cols(s.take(i)) <= cols(s.take(j)),
    decreases j - i,
{
    if i < j {
        lemma_cols_prefix(s, i, j - 1);
        assert(s.take(j).drop_last() =~= s.take(j - 1));
    }
}

/// The number of leading characters of `s` that fit into `max` columns.
pub open spec fn fit_len(s: Seq<char>, max: nat) -> nat
    decreases s.len(),
{
    if cols(s) <= max {
        s.len()
    } else {
        fit_len(s.drop_last(), max)
    }
}

/// Where the first `i` characters fit and the first `i + 1` do not, `fit_len` is `i`.
pub proof fn lemma_fit_len_at(s: Seq<char>, max: nat, i: int)
    requires
        0 <= i < s.len(),
        cols(s.take(i)) <= max,
        cols(s.take(i + 1)) > max,
    ensures
        fit_len(s, max) == i,
    decreases s.len(),
{
    assert(s.take(s.len() as int) =~= s);
    lemma_cols_prefix(s, i + 1, s.len() as int);
    let d = s.drop_last();
    assert(cols(s) > max);
    assert(fit_len(s, max) == fit_len(d, max));
    if s.len() == i + 1 {
        assert(d =~= s.take(i));
        assert(fit_len(d, max) == d.len());
    } else {
        assert(d.take(i) =~= s.take(i));
        assert(d.take(i + 1) =~= s.take(i + 1));
        lemma_fit_len_at(d, max, i);
    }
}

/// `s` cut to at most `max` columns, with `…` marking a cut where a column is left for it.
pub open spec fn cut_to_width(s: Seq<char>, max: nat) -> Seq<char> {
    let k = fit_len(s, max);
    s.take(k as int) + if k < s.len() && cols(s.take(k as int)) + 1 <= max {
        seq!['…']
    } else {
        Seq::<char>::empty()
    }
}

/// Scans `v` from the start and returns how many characters fit into `max`
/// columns, with the columns they take.
fn scan_fit(v: &Vec<char>, max: usize) -> (res: (usize, usize))
    ensures
        res.0 == fit_len(v@, max as nat),
        res.1 == cols(v@.take(res.0 as int)),
        res.1 <= max,
        res.0 <= v@.len(),
{
    let mut w: usize = 0;
    let mut i: usize = 0;
    let mut stop = false;
    while i < v.len() && !stop
        invariant
            i <= v.len(),
            w == cols(v@.take(i as int)),
            w <= max,
            stop ==> i < v.len() && cols(v@.take(i + 1)) > max,
        decreases v.len() - i + if stop { 0int } else { 1int },
    {
        let cw: usize = match char_width(v[i]) {
            Some(x) => x,
            None => 1,
        };
        assert(v@.take(i + 1).drop_last() =~= v@.take(i as int));
        if cw > max - w {
            stop = true;
        } else {
            w = w + cw;
            i = i + 1;
        }
    }
    proof {
        if stop {
            lemma_fit_len_at(v@, max as nat, i as int);
        } else {
            assert(v@.take(v@.len() as int) =~= v@);
        }
    }
    (i, w)
}

/// Cuts `s` to at most `max_width` columns; where a cut is made and one column
/// is left, `…` is appended.
pub fn truncate_by_width(s: &str, max_width: usize) -> (r: String)
    ensures
        r@ == cut_to_width(s@, max_width as nat),
{
    let v = chars_of(s);
    let (k, w) = scan_fit(&v, max_width);
    let mut res: Vec<char> = Vec::new();
    let mut i: usize = 0;
    while i < k
        invariant
            i <= k,
            k <= v.len(),
            res@ == v@.take(i as int),
        decreases k - i,
    {
        res.push(v[i]);
        assert(v@.take(i + 1) =~= v@.take(i as int).push(v[i as int]));
        i = i + 1;
    }
    if k < v.len() && max_width - w >= 1 {
        res.push('…');
    }
    proof {
        if !(k < v.len() && max_width - w >= 1) {
            assert(res@ =~= res@ + Seq::<char>::empty());
        }
    }
    string_of(&res)
}

/// Like [`truncate_by_width`], except that no width at all gives an empty string.
pub fn truncate_text_by_width(text: &str, max_width: usize) -> (r: String)
    ensures
        max_width == 0 ==> r@ == Seq::<char>::empty(),
        max_width > 0 ==> r@ == cut_to_width(text@, max_width as nat),
{
    if max_width == 0 {
        return String::new();
    }
    truncate_by_width(text, max_width)
}

/// The columns taken by the display of the string (unicode-width's own rule,
/// which joins some sequences such as emoji into one glyph).
pub fn visual_width(s: &str) -> (w: usize)
    ensures
        w == str_table_width(s@),
        (forall|i: int| 0 <= i < s@.len() ==> is_printable_ascii(#[trigger] s@[i])) ==> w == s@.len(),
{
    str_width(s)
}

/// The columns taken by the first `n` characters of `s`, each laid out on its own.
pub fn visual_offset(s: &str, n: usize) -> (w: usize)
    requires
        3 * s@.len() <= usize::MAX,
    ensures
        w == cols(s@.take(if n <= s@.len() { n as int } else { s@.len() as int })),
{
    let v = chars_of(s);
    let end: usize = if n <= v.len() { n } else { v.len() };
    let mut w: usize = 0;
    let mut i: usize = 0;
    while i < end
        invariant
            i <= end,
            end <= v.len(),
            v@ == s@,
            3 * v.len() <= usize::MAX,
            w == cols(v@.take(i as int)),
            w <= 3 * i,
        decreases end - i,
    {
        let cw: usize = match char_width(v[i]) {
            Some(x) => x,
            None => 1,
        };
        assert(v@.take(i + 1).drop_last() =~= v@.take(i as int));
        w = w + cw;
        i = i + 1;
    }
    w
}

/// Where a line too wide for `max` columns is broken: after the characters that
/// fit, but always after at least one character.
pub open spec fn break_point(s: Seq<char>, max: nat) -> int {
    let k = fit_len(s, max);
    if k == 0 {
        if s.len() == 0 { 0 } else { 1 }
    } else {
        k as int
    }
}

/// Splits `line` into the part that fits into `max_width` columns (at least
/// one character) and the rest.
pub fn split_by_width(line: &str, max_width: usize) -> (r: (String, String))
    ensures
        r.0@ == line@.take(break_point(line@, max_width as nat)),
        r.1@ == line@.skip(break_point(line@, max_width as nat)),
        r.0@ + r.1@ == line@,
{
    let v = chars_of(line);
    let (k0, _w) = scan_fit(&v, max_width);
    let k: usize = if k0 == 0 {
        if v.len() == 0 { 0 } else { 1 }
    } else {
        k0
    };
    let mut first: Vec<char> = Vec::new();
    let mut second: Vec<char> = Vec::new();
    let mut i: usize = 0;
    while i < v.len()
        invariant
            k <= v.len(),
            i <= v.len(),
            i <= k ==> first@ == v@.take(i as int) && second@ == Seq::<char>::empty(),
            i > k ==> first@ == v@.take(k as int) && second@ == v@.subrange(k as int, i as int),
        decreases v.len() - i,
    {
        if i < k {
            first.push(v[i]);
            assert(v@.take(i + 1) =~= v@.take(i as int).push(v[i as int]));
        } else {
            second.push(v[i]);
            assert(v@.subrange(k as int, i + 1) =~= v@.subrange(k as int, i as int).push(v[i as int]));
        }
        i = i + 1;
    }
    assert(v@.subrange(k as int, v.len() as int) =~= v@.skip(k as int));
    assert(v@.take(k as int) + v@.skip(k as int) =~= v@);
    (string_of(&first), string_of(&second))
}

/// `text` cut to `max_chars` characters, with `…` added when anything was cut.
pub open spec fn cut_to_chars(text: Seq<char>, max_chars: nat) -> Seq<char> {
    if max_chars == 0 {
        Seq::<char>::empty()
    } else if text.len() <= max_chars {
        text
    } else {
        text.take(max_chars as int).push('…')
    }
}

/// Cuts `text` to at most `max_chars` characters, marking a cut with `…`.
pub fn truncate_text(text: &str, max_chars: usize) -> (r: String)
    ensures
        r@ == cut_to_chars(text@, max_chars as nat),
{
    if max_chars == 0 {
        return String::new();
    }
    let v = chars_of(text);
    let mut res: Vec<char> = Vec::new();
    let mut i: usize = 0;
    while i < v.len() && i < max_chars
        invariant
            i <= v.len(),
            i <= max_chars,
            res@ == v@.take(i as int),
        decreases v.len() - i,
    {
        res.push(v[i]);
        assert(v@.take(i + 1) =~= v@.take(i as int).push(v[i as int]));
        i = i + 1;
    }
    if i < v.len() {
        res.push('…');
    } else {
        assert(v@.take(i as int) =~= v@);
    }
    string_of(&res)
}

/// The columns that the display of the characters `v` takes.
pub fn chars_width(v: &Vec<char>) -> (w: usize)
    ensures
        w == str_table_width(v@),
        (forall|i: int| 0 <= i < v@.len() ==> is_printable_ascii(#[trigger] v@[i])) ==> w == v@.len(),
{
    let s = string_of(v);
    str_width(s.as_str())
}

/// Splits the characters `v` into the part that fits into `max_width`
/// columns (at least one character) and the rest.
pub fn split_chars_by_width(v: &Vec<char>, max_width: usize) -> (r: (Vec<char>, Vec<char>))
    ensures
        r.0@ == v@.take(break_point(v@, max_width as nat)),
        r.1@ == v@.skip(break_point(v@, max_width as nat)),
{
    let (k0, _w) = scan_fit(v, max_width);
    let k: usize = if k0 == 0 {
        if v.len() == 0 { 0 } else { 1 }
    } else {
        k0
    };
    let mut first: Vec<char> = Vec::new();
    let mut second: Vec<char> = Vec::new();
    let mut i: usize = 0;
    while i < v.len()
        invariant
            k <= v.len(),
            i <= v.len(),
            i <= k ==> first@ == v@.take(i as int) && second@ == Seq::<char>::empty(),
            i > k ==> first@ == v@.take(k as int) && second@ == v@.subrange(k as int, i as int),
        decreases v.len() - i,
    {
        if i < k {
            first.push(v[i]);
            assert(v@.take(i + 1) =~= v@.take(i as int).push(v[i as int]));
        } else {
            second.push(v[i]);
            assert(v@.subrange(k as int, i + 1) =~= v@.subrange(k as int, i as int).push(v[i as int]));
        }
        i = i + 1;
    }
    assert(v@.subrange(k as int, v.len() as int) =~= v@.skip(k as int));
    (first, second)
}

/// The first character that a split takes never leaves the rest longer than the line.
pub proof fn lemma_break_point_bounds(s: Seq<char>, max: nat)
    ensures
        0 <= break_point(s, max) <= s.len(),
        s.len() > 0 ==> break_point(s, max) >= 1,
{
    lemma_fit_len_le(s, max);
}

/// `fit_len` never exceeds the length.
pub proof fn lemma_fit_len_le(s: Seq<char>, max: nat)
    ensures
        fit_len(s, max) <= s.len(),
    decreases s.len(),
{
    if s.len() > 0 && cols(s) > max {
        lemma_fit_len_le(s.drop_last(), max);
    }
}

} // verus!
