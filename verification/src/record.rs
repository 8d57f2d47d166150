//! The line that stores one task in the task file: seven fields separated by
//! `|` (done, pinned, created, done at, due, tag, text), the flags as `1`
//! or `0`, the instants in decimal, the tag and the text with `\`, `|`,
//! newline and carriage return escaped as `\\`, `\p`, `\n` and `\r`.

use vstd::prelude::*;
use crate::todo::Todo;
use crate::text::{chars_of, string_of, decimal, decimal_string_u64, lines_of, split_newlines};
use crate::datetime::{split_on, split_chars, is_digit, all_digits, digits_value, lemma_split_on_nonempty, lemma_digits_grow};

verus! {

/// The escaped form of one character.
pub open spec fn esc_char(c: char) -> Seq<char> {
    if c == '\\' {
        seq!['\\', '\\']
    } else if c == '|' {
        seq!['\\', 'p']
    } else if c == '\n' {
        seq!['\\', 'n']
    } else if c == '\r' {
        seq!['\\', 'r']
    } else {
        seq![c]
    }
}

/// `s` with every character escaped.
pub open spec fn escape(s: Seq<char>) -> Seq<char>
    decreases s.len(),
{
    if s.len() == 0 {
        Seq::<char>::empty()
    } else {
        esc_char(s[0]) + escape(s.drop_first())
    }
}

/// Whether `c` may follow `\` in an escaped field.
pub open spec fn is_escape_code(c: char) -> bool {
    c == '\\' || c == 'p' || c == 'n' || c == 'r'
}

/// The character an escape code stands for.
pub open spec fn decode(c: char) -> char {
    if c == 'p' {
        '|'
    } else if c == 'n' {
        '\n'
    } else if c == 'r' {
        '\r'
    } else {
        '\\'
    }
}

/// The text an escaped field stands for; nothing when a `\` is not followed
/// by an escape code.
pub open spec fn unescape(s: Seq<char>) -> Option<Seq<char>>
    decreases s.len(),
{
    if s.len() == 0 {
        Some(Seq::<char>::empty())
    } else if s[0] == '\\' {
        if s.len() >= 2 && is_escape_code(s[1]) {
            match unescape(s.skip(2)) {
                Some(r) => Some(seq![decode(s[1])] + r),
                None => None,
            }
        } else {
            None
        }
    } else {
        match unescape(s.skip(1)) {
            Some(r) => Some(seq![s[0]] + r),
            None => None,
        }
    }
}

/// A flag as one character.
pub open spec fn flag(b: bool) -> Seq<char> {
    if b { seq!['1'] } else { seq!['0'] }
}

/// The flag one character stands for.
pub open spec fn parse_flag(s: Seq<char>) -> Option<bool> {
    if s =~= seq!['1'] {
        Some(true)
    } else if s =~= seq!['0'] {
        Some(false)
    } else {
        None
    }
}

/// The number a field of decimal digits stands for, when it fits in 64 bits.
pub open spec fn parse_u64_field(s: Seq<char>) -> Option<u64> {
    if all_digits(s) && digits_value(s) <= u64::MAX {
        Some(digits_value(s) as u64)
    } else {
        None
    }
}

/// The fields of a task, in the order the line holds them.
pub type TodoFields = (bool, bool, u64, u64, u64, Seq<char>, Seq<char>);

/// The fields of a task as its values.
pub open spec fn fields_of(t: Todo) -> TodoFields {
    (t.done, t.pinned, t.created_at, t.done_at, t.due_date, t.tag@, t.text@)
}

/// The line of a task, without the final newline.
pub open spec fn line_of(f: TodoFields) -> Seq<char> {
    flag(f.0) + seq!['|'] + flag(f.1) + seq!['|'] + decimal(f.2 as nat) + seq!['|'] + decimal(f.3 as nat)
        + seq!['|'] + decimal(f.4 as nat) + seq!['|'] + escape(f.5) + seq!['|'] + escape(f.6)
}

/// The fields a line stands for: seven `|`-separated fields, each well formed.
pub open spec fn fields_of_line(line: Seq<char>) -> Option<TodoFields> {
    let p = split_on(line, '|');
    if p.len() != 7 {
        None
    } else {
        match (parse_flag(p[0]), parse_flag(p[1]), parse_u64_field(p[2]), parse_u64_field(p[3]), parse_u64_field(p[4])) {
            (Some(d), Some(pn), Some(c), Some(da), Some(du)) => match (unescape(p[5]), unescape(p[6])) {
                (Some(tag), Some(text)) => Some((d, pn, c, da, du, tag, text)),
                _ => None,
            },
            _ => None,
        }
    }
}

/// Escaping distributes over concatenation.
proof fn lemma_escape_concat(a: Seq<char>, b: Seq<char>)
    ensures
        escape(a + b) == escape(a) + escape(b),
    decreases a.len(),
{
    if a.len() > 0 {
        lemma_escape_concat(a.drop_first(), b);
        assert((a + b).drop_first() =~= a.drop_first() + b);
        assert((a + b)[0] == a[0]);
        assert(esc_char(a[0]) + (escape(a.drop_first()) + escape(b)) =~= esc_char(a[0]) + escape(a.drop_first()) + escape(b));
    } else {
        assert(a + b =~= b);
        assert(escape(a) + escape(b) =~= escape(b));
    }
}

/// An escaped field holds no `|`.
proof fn lemma_escape_no_bar(s: Seq<char>)
    ensures
        forall|i: int| 0 <= i < escape(s).len() ==> escape(s)[i] != '|',
    decreases s.len(),
{
    if s.len() > 0 {
        lemma_escape_no_bar(s.drop_first());
        let e = esc_char(s[0]);
        assert forall|i: int| 0 <= i < escape(s).len() implies escape(s)[i] != '|' by {
            if i < e.len() {
                assert(escape(s)[i] == e[i]);
            } else {
                assert(escape(s)[i] == escape(s.drop_first())[i - e.len()]);
            }
        }
    }
}

/// Unescaping gives back what was escaped.
proof fn lemma_unescape_escape(s: Seq<char>)
    ensures
        unescape(escape(s)) == Some(s),
    decreases s.len(),
{
    if s.len() == 0 {
        assert(escape(s) =~= Seq::<char>::empty());
    } else {
        lemma_unescape_escape(s.drop_first());
        let e = escape(s);
        let rest = escape(s.drop_first());
        let c = s[0];
        if c == '\\' || c == '|' || c == '\n' || c == '\r' {
            assert(e.skip(2) =~= rest);
            assert(e[0] == '\\');
            assert(seq![decode(e[1])] + s.drop_first() =~= s);
        } else {
            assert(e.skip(1) =~= rest);
            assert(e[0] == c);
            assert(seq![c] + s.drop_first() =~= s);
        }
    }
}

/// Splitting at a separator splits each side of it apart.
proof fn lemma_split_concat(a: Seq<char>, b: Seq<char>, sep: char)
    ensures
        split_on(a + seq![sep] + b, sep) == split_on(a, sep) + split_on(b, sep),
    decreases b.len(),
{
    if b.len() == 0 {
        assert(a + seq![sep] + b =~= a.push(sep));
        assert((a.push(sep)).drop_last() =~= a);
        assert(split_on(a, sep) + split_on(b, sep) =~= split_on(a, sep).push(Seq::<char>::empty()));
    } else {
        let b1 = b.drop_last();
        lemma_split_concat(a, b1, sep);
        let whole = a + seq![sep] + b;
        assert(whole.drop_last() =~= a + seq![sep] + b1);
        assert(whole.last() == b.last());
        lemma_split_on_nonempty(b1, sep);
        lemma_split_on_nonempty(a, sep);
        if b.last() == sep {
            assert(split_on(a, sep) + split_on(b1, sep).push(Seq::<char>::empty())
                =~= (split_on(a, sep) + split_on(b1, sep)).push(Seq::<char>::empty()));
        } else {
            let pa = split_on(a, sep);
            let pb = split_on(b1, sep);
            let both = pa + pb;
            assert(both.update(both.len() - 1, both.last().push(b.last()))
                =~= pa + pb.update(pb.len() - 1, pb.last().push(b.last())));
        }
    }
}

/// A piece with no separator in it is not split.
proof fn lemma_split_none(a: Seq<char>, sep: char)
    requires
        forall|i: int| 0 <= i < a.len() ==> a[i] != sep,
    ensures
        split_on(a, sep) == seq![a],
    decreases a.len(),
{
    if a.len() > 0 {
        lemma_split_none(a.drop_last(), sep);
        assert(a.drop_last().push(a.last()) =~= a);
        assert(seq![a.drop_last()].update(0, a) =~= seq![a]);
    } else {
        assert(a =~= Seq::<char>::empty());
    }
}

/// The digit character of a number under ten stands for it.
proof fn lemma_digit_char(d: nat)
    requires
        d < 10,
    ensures
        (('0' as u32 + d) as char) as int == '0' as int + d,
        is_digit(('0' as u32 + d) as char),
{
    assert(('0' as u32 + d) as char == ('0' as u32 + d) as u32 as char);
}

/// A decimal is digits only, and stands for its number.
proof fn lemma_decimal_digits(n: nat)
    ensures
        all_digits(decimal(n)),
        digits_value(decimal(n)) == n,
    decreases n,
{
    if n < 10 {
        let d = decimal(n);
        lemma_digit_char(n);
        assert(d.drop_last() =~= Seq::<char>::empty());
        assert(d[0] == ('0' as u32 + n) as char);
        assert(digits_value(d.drop_last()) == 0);
        assert(d.last() == d[0]);
        assert(digits_value(d) == digits_value(d.drop_last()) * 10 + ((d.last() as int) - ('0' as int)));
    } else {
        lemma_decimal_digits(n / 10);
        lemma_digit_char(n % 10);
        let d = decimal(n);
        assert(d.drop_last() =~= decimal(n / 10));
        assert(d.last() == ('0' as u32 + (n % 10)) as char);
        assert((n / 10) * 10 + n % 10 == n) by (nonlinear_arith);
        assert(digits_value(d) == digits_value(decimal(n / 10)) * 10 + (n % 10));
        assert forall|i: int| 0 <= i < d.len() implies is_digit(#[trigger] d[i]) by {
            if i < d.len() - 1 {
                assert(d[i] == decimal(n / 10)[i]);
            }
        }
    }
}

/// A decimal never holds a `|`.
proof fn lemma_decimal_no_bar(n: nat)
    ensures
        forall|i: int| 0 <= i < decimal(n).len() ==> decimal(n)[i] != '|',
{
    lemma_decimal_digits(n);
    assert forall|i: int| 0 <= i < decimal(n).len() implies decimal(n)[i] != '|' by {
        assert(is_digit(decimal(n)[i]));
    }
}

/// Reading the line of a task gives back the task's fields: what the task
/// file gives back of a task is what was written of it.
pub proof fn lemma_line_roundtrip(f: TodoFields)
    ensures
        fields_of_line(line_of(f)) == Some(f),
{
    let parts = seq![flag(f.0), flag(f.1), decimal(f.2 as nat), decimal(f.3 as nat), decimal(f.4 as nat), escape(f.5), escape(f.6)];
    lemma_decimal_no_bar(f.2 as nat);
    lemma_decimal_no_bar(f.3 as nat);
    lemma_decimal_no_bar(f.4 as nat);
    lemma_escape_no_bar(f.5);
    lemma_escape_no_bar(f.6);
    lemma_split_none(flag(f.0), '|');
    lemma_split_none(flag(f.1), '|');
    lemma_split_none(decimal(f.2 as nat), '|');
    lemma_split_none(decimal(f.3 as nat), '|');
    lemma_split_none(decimal(f.4 as nat), '|');
    lemma_split_none(escape(f.5), '|');
    lemma_split_none(escape(f.6), '|');
    let a1 = flag(f.0);
    let a2 = a1 + seq!['|'] + flag(f.1);
    let a3 = a2 + seq!['|'] + decimal(f.2 as nat);
    let a4 = a3 + seq!['|'] + decimal(f.3 as nat);
    let a5 = a4 + seq!['|'] + decimal(f.4 as nat);
    let a6 = a5 + seq!['|'] + escape(f.5);
    let a7 = a6 + seq!['|'] + escape(f.6);
    lemma_split_concat(a1, flag(f.1), '|');
    lemma_split_concat(a2, decimal(f.2 as nat), '|');
    lemma_split_concat(a3, decimal(f.3 as nat), '|');
    lemma_split_concat(a4, decimal(f.4 as nat), '|');
    lemma_split_concat(a5, escape(f.5), '|');
    lemma_split_concat(a6, escape(f.6), '|');
    assert(a7 == line_of(f));
    assert(split_on(a7, '|') =~= parts);
    lemma_decimal_digits(f.2 as nat);
    lemma_decimal_digits(f.3 as nat);
    lemma_decimal_digits(f.4 as nat);
    lemma_unescape_escape(f.5);
    lemma_unescape_escape(f.6);
    assert(parse_flag(flag(f.0)) == Some(f.0));
    assert(parse_flag(flag(f.1)) == Some(f.1));
}


/// Appends the escaped form of `c` to `out`.
fn push_escaped(out: &mut Vec<char>, c: char)
    ensures
        final(out)@ == old(out)@ + esc_char(c),
{
    if c == '\\' {
        out.push('\\');
        out.push('\\');
    } else if c == '|' {
        out.push('\\');
        out.push('p');
    } else if c == '\n' {
        out.push('\\');
        out.push('n');
    } else if c == '\r' {
        out.push('\\');
        out.push('r');
    } else {
        out.push(c);
    }
    assert(final(out)@ =~= old(out)@ + esc_char(c));
}

/// Appends the escaped form of `s` to `out`.
fn push_escaped_all(out: &mut Vec<char>, s: &Vec<char>)
    ensures
        final(out)@ == old(out)@ + escape(s@),
{
    let ghost start = out@;
    let mut i: usize = 0;
    while i < s.len()
        invariant
            i <= s@.len(),
            out@ == start + escape(s@.take(i as int)),
        decreases s@.len() - i,
    {
        proof {
            lemma_escape_concat(s@.take(i as int), seq![s@[i as int]]);
            assert(s@.take(i + 1) =~= s@.take(i as int) + seq![s@[i as int]]);
            let one = seq![s@[i as int]];
            assert(one.drop_first() =~= Seq::<char>::empty());
            assert(escape(one.drop_first()) == Seq::<char>::empty());
            assert(one[0] == s@[i as int]);
            assert(escape(one) == esc_char(one[0]) + escape(one.drop_first()));
            assert(escape(one) =~= esc_char(s@[i as int]));
        }
        push_escaped(out, s[i]);
        assert(out@ =~= start + escape(s@.take(i + 1)));
        i += 1;
    }
    assert(s@.take(s@.len() as int) =~= s@);
}

/// Appends the characters of `s` to `out`.
fn push_all(out: &mut Vec<char>, s: &Vec<char>)
    ensures
        final(out)@ == old(out)@ + s@,
{
    let ghost start = out@;
    let mut i: usize = 0;
    while i < s.len()
        invariant
            i <= s@.len(),
            out@ == start + s@.take(i as int),
        decreases s@.len() - i,
    {
        out.push(s[i]);
        assert(s@.take(i + 1) =~= s@.take(i as int).push(s@[i as int]));
        assert(out@ =~= start + s@.take(i + 1));
        i += 1;
    }
    assert(s@.take(s@.len() as int) =~= s@);
}

/// The text an escaped field stands for, if it is well formed.
fn unescape_chars(s: &Vec<char>) -> (r: Option<Vec<char>>)
    ensures
        r matches Some(v) ==> unescape(s@) == Some(v@),
        r is None ==> unescape(s@) is None,
{
    let mut out: Vec<char> = Vec::new();
    let mut i: usize = 0;
    assert(s@.skip(0) =~= s@);
    while i < s.len()
        invariant
            i <= s@.len(),
            unescape(s@) == match unescape(s@.skip(i as int)) {
                Some(r) => Some(out@ + r),
                None => None::<Seq<char>>,
            },
        decreases s@.len() - i,
    {
        let ghost rest = s@.skip(i as int);
        let c = s[i];
        if c == '\\' {
            if i + 1 < s.len() && (s[i + 1] == '\\' || s[i + 1] == 'p' || s[i + 1] == 'n' || s[i + 1] == 'r') {
                let e = s[i + 1];
                let d = if e == 'p' { '|' } else if e == 'n' { '\n' } else if e == 'r' { '\r' } else { '\\' };
                proof {
                    assert(rest[0] == c && rest[1] == e);
                    assert(rest.skip(2) =~= s@.skip(i + 2));
                    match unescape(s@.skip(i + 2)) {
                        Some(r2) => {
                            assert(out@ + (seq![d] + r2) =~= out@.push(d) + r2);
                        },
                        None => {},
                    }
                }
                out.push(d);
                i += 2;
            } else {
                assert(rest[0] == '\\');
                return None;
            }
        } else {
            proof {
                assert(rest[0] == c);
                assert(rest.skip(1) =~= s@.skip(i + 1));
                match unescape(s@.skip(i + 1)) {
                    Some(r2) => {
                        assert(out@ + (seq![c] + r2) =~= out@.push(c) + r2);
                    },
                    None => {},
                }
            }
            out.push(c);
            i += 1;
        }
    }
    assert(s@.skip(s@.len() as int) =~= Seq::<char>::empty());
    assert(out@ + Seq::<char>::empty() =~= out@);
    Some(out)
}

/// The flag a field stands for.
fn parse_flag_chars(s: &Vec<char>) -> (r: Option<bool>)
    ensures
        r == parse_flag(s@),
{
    if s.len() == 1 && s[0] == '1' {
        assert(s@ =~= seq!['1']);
        Some(true)
    } else if s.len() == 1 && s[0] == '0' {
        assert(s@ =~= seq!['0']);
        Some(false)
    } else {
        assert(!(s@ =~= seq!['1'])) by {
            if s@ =~= seq!['1'] {
                assert(s@.len() == 1 && s@[0] == '1');
            }
        }
        assert(!(s@ =~= seq!['0'])) by {
            if s@ =~= seq!['0'] {
                assert(s@.len() == 1 && s@[0] == '0');
            }
        }
        None
    }
}

/// The number a field of decimal digits stands for, if it fits in 64 bits.
fn parse_u64_chars(s: &Vec<char>) -> (r: Option<u64>)
    ensures
        r == parse_u64_field(s@),
{
    if s.len() == 0 {
        return None;
    }
    let mut acc: u64 = 0;
    let mut i: usize = 0;
    while i < s.len()
        invariant
            i <= s@.len(),
            s@.len() > 0,
            acc == digits_value(s@.take(i as int)),
            forall|k: int| 0 <= k < i ==> is_digit(#[trigger] s@[k]),
        decreases s@.len() - i,
    {
        let c = s[i];
        if !('0' <= c && c <= '9') {
            assert(!is_digit(s@[i as int]));
            return None;
        }
        let d: u64 = (c as u32 - '0' as u32) as u64;
        assert(s@.take(i + 1).drop_last() =~= s@.take(i as int));
        assert(s@.take(i + 1).last() == c);
        if acc > (u64::MAX - d) / 10 {
            assert(acc * 10 + d > u64::MAX) by (nonlinear_arith)
                requires
                    acc > (u64::MAX - d) / 10,
                    d <= 9;
            proof {
                if all_digits(s@) {
                    lemma_digits_grow(s@, i + 1);
                }
            }
            return None;
        }
        assert(acc * 10 + d <= u64::MAX) by (nonlinear_arith)
            requires
                acc <= (u64::MAX - d) / 10,
                d <= 9;
        acc = acc * 10 + d;
        i += 1;
    }
    assert(s@.take(s@.len() as int) =~= s@);
    Some(acc)
}

impl Todo {
    /// The line that stores the task, ending in a newline.
    pub fn to_line(&self) -> (r: String)
        ensures
            r@ == line_of(fields_of(*self)).push('\n'),
    {
        let mut out: Vec<char> = Vec::new();
        out.push(if self.done { '1' } else { '0' });
        out.push('|');
        out.push(if self.pinned { '1' } else { '0' });
        out.push('|');
        push_all(&mut out, &chars_of(decimal_string_u64(self.created_at).as_str()));
        out.push('|');
        push_all(&mut out, &chars_of(decimal_string_u64(self.done_at).as_str()));
        out.push('|');
        push_all(&mut out, &chars_of(decimal_string_u64(self.due_date).as_str()));
        out.push('|');
        push_escaped_all(&mut out, &chars_of(self.tag.as_str()));
        out.push('|');
        push_escaped_all(&mut out, &chars_of(self.text.as_str()));
        out.push('\n');
        assert(out@ =~= line_of(fields_of(*self)).push('\n'));
        string_of(&out)
    }

    /// The task a line stores (without its newline); nothing when the line is
    /// not seven well-formed `|`-separated fields.
    pub fn from_line(line: &str) -> (r: Option<Todo>)
        ensures
            r is None <==> fields_of_line(line@) is None,
            r matches Some(t) ==> fields_of_line(line@) == Some(fields_of(t)),
    {
        let v = chars_of(line);
        let p = split_chars(&v, '|');
        if p.len() != 7 {
            return None;
        }
        let done = match parse_flag_chars(&p[0]) {
            Some(b) => b,
            None => return None,
        };
        let pinned = match parse_flag_chars(&p[1]) {
            Some(b) => b,
            None => return None,
        };
        let created_at = match parse_u64_chars(&p[2]) {
            Some(n) => n,
            None => return None,
        };
        let done_at = match parse_u64_chars(&p[3]) {
            Some(n) => n,
            None => return None,
        };
        let due_date = match parse_u64_chars(&p[4]) {
            Some(n) => n,
            None => return None,
        };
        let tag = match unescape_chars(&p[5]) {
            Some(t) => t,
            None => return None,
        };
        let text = match unescape_chars(&p[6]) {
            Some(t) => t,
            None => return None,
        };
        Some(Todo { text: string_of(&text), tag: string_of(&tag), done, pinned, created_at, done_at, due_date })
    }
}

/// The text of a task file holding the tasks `fs`: the line of each, each
/// ended by a newline.
pub open spec fn file_of(fs: Seq<TodoFields>) -> Seq<char>
    decreases fs.len(),
{
    if fs.len() == 0 {
        Seq::<char>::empty()
    } else {
        file_of(fs.drop_last()) + line_of(fs.last()).push('\n')
    }
}

/// The tasks stored by the lines `lines`, in order; a line that stores no
/// task is passed over.
pub open spec fn tasks_of_lines(lines: Seq<Seq<char>>) -> Seq<TodoFields>
    decreases lines.len(),
{
    if lines.len() == 0 {
        Seq::<TodoFields>::empty()
    } else {
        let p = tasks_of_lines(lines.drop_last());
        match fields_of_line(lines.last()) {
            Some(f) => p.push(f),
            None => p,
        }
    }
}

/// Whether `s` holds neither a newline nor a carriage return.
pub open spec fn no_line_break(s: Seq<char>) -> bool {
    forall|i: int| 0 <= i < s.len() ==> s[i] != '\n' && s[i] != '\r'
}

/// An escaped field holds no line break.
proof fn lemma_escape_no_break(s: Seq<char>)
    ensures
        no_line_break(escape(s)),
    decreases s.len(),
{
    if s.len() > 0 {
        lemma_escape_no_break(s.drop_first());
        let e = esc_char(s[0]);
        assert forall|i: int| 0 <= i < escape(s).len() implies escape(s)[i] != '\n' && escape(s)[i] != '\r' by {
            if i < e.len() {
                assert(escape(s)[i] == e[i]);
            } else {
                assert(escape(s)[i] == escape(s.drop_first())[i - e.len()]);
            }
        }
    }
}

/// A task's line holds no line break.
proof fn lemma_line_no_break(f: TodoFields)
    ensures
        no_line_break(line_of(f)),
{
    lemma_decimal_digits(f.2 as nat);
    lemma_decimal_digits(f.3 as nat);
    lemma_decimal_digits(f.4 as nat);
    lemma_escape_no_break(f.5);
    lemma_escape_no_break(f.6);
    let l = line_of(f);
    assert forall|i: int| 0 <= i < l.len() implies l[i] != '\n' && l[i] != '\r' by {
        let a = flag(f.0);
        let b = flag(f.1);
        let c = decimal(f.2 as nat);
        let d = decimal(f.3 as nat);
        let e = decimal(f.4 as nat);
        let g = escape(f.5);
        let h = escape(f.6);
        if i < a.len() {
        } else if i < a.len() + 1 {
        } else if i < a.len() + 1 + b.len() {
        } else if i < a.len() + 2 + b.len() {
        } else if i < a.len() + 2 + b.len() + c.len() {
            assert(is_digit(c[i - (a.len() + 2 + b.len())]));
        } else if i < a.len() + 3 + b.len() + c.len() {
        } else if i < a.len() + 3 + b.len() + c.len() + d.len() {
            assert(is_digit(d[i - (a.len() + 3 + b.len() + c.len())]));
        } else if i < a.len() + 4 + b.len() + c.len() + d.len() {
        } else if i < a.len() + 4 + b.len() + c.len() + d.len() + e.len() {
            assert(is_digit(e[i - (a.len() + 4 + b.len() + c.len() + d.len())]));
        } else if i < a.len() + 5 + b.len() + c.len() + d.len() + e.len() {
        } else if i < a.len() + 5 + b.len() + c.len() + d.len() + e.len() + g.len() {
            assert(l[i] == g[i - (a.len() + 5 + b.len() + c.len() + d.len() + e.len())]);
        } else if i < a.len() + 6 + b.len() + c.len() + d.len() + e.len() + g.len() {
        } else {
            assert(l[i] == h[i - (a.len() + 6 + b.len() + c.len() + d.len() + e.len() + g.len())]);
        }
    }
}

/// Text without a newline only extends the open piece.
proof fn lemma_split_newlines_plain(a: Seq<char>, l: Seq<char>)
    requires
        no_line_break(l),
    ensures
        split_newlines(a + l).0 == split_newlines(a).0,
        split_newlines(a + l).1 == split_newlines(a).1 + l,
    decreases l.len(),
{
    if l.len() == 0 {
        assert(a + l =~= a);
        assert(split_newlines(a).1 + l =~= split_newlines(a).1);
    } else {
        lemma_split_newlines_plain(a, l.drop_last());
        assert((a + l).drop_last() =~= a + l.drop_last());
        assert((a + l).last() == l.last());
        assert(split_newlines(a).1 + l.drop_last() + seq![l.last()] =~= split_newlines(a).1 + l);
    }
}

/// The pieces of a task file are the lines of its tasks.
proof fn lemma_split_file(fs: Seq<TodoFields>)
    ensures
        split_newlines(file_of(fs)).0 == fs.map_values(|f: TodoFields| line_of(f)),
        split_newlines(file_of(fs)).1 == Seq::<char>::empty(),
    decreases fs.len(),
{
    if fs.len() > 0 {
        let prev = file_of(fs.drop_last());
        let l = line_of(fs.last());
        lemma_split_file(fs.drop_last());
        lemma_line_no_break(fs.last());
        lemma_split_newlines_plain(prev, l);
        assert(file_of(fs) =~= (prev + l).push('\n'));
        assert((prev + l).push('\n').drop_last() =~= prev + l);
        assert(Seq::<char>::empty() + l =~= l);
        assert(fs.drop_last().map_values(|f: TodoFields| line_of(f)).push(l) =~= fs.map_values(|f: TodoFields| line_of(f)));
    } else {
        assert(fs.map_values(|f: TodoFields| line_of(f)) =~= Seq::<Seq<char>>::empty());
    }
}

/// Reading the tasks back from the lines of their lines gives the tasks.
proof fn lemma_tasks_of_own_lines(fs: Seq<TodoFields>)
    ensures
        tasks_of_lines(fs.map_values(|f: TodoFields| line_of(f))) == fs,
    decreases fs.len(),
{
    if fs.len() > 0 {
        lemma_tasks_of_own_lines(fs.drop_last());
        let ls = fs.map_values(|f: TodoFields| line_of(f));
        assert(ls.drop_last() =~= fs.drop_last().map_values(|f: TodoFields| line_of(f)));
        lemma_line_roundtrip(fs.last());
        assert(fs.drop_last().push(fs.last()) =~= fs);
    } else {
        assert(fs.map_values(|f: TodoFields| line_of(f)) =~= Seq::<Seq<char>>::empty());
    }
}

/// What the task file gives back is what was written: the tasks read from
/// the lines of a saved file are the saved tasks, in their order.
pub proof fn lemma_file_roundtrip(fs: Seq<TodoFields>)
    ensures
        tasks_of_lines(lines_of(file_of(fs))) == fs,
{
    lemma_split_file(fs);
    let ls = fs.map_values(|f: TodoFields| line_of(f));
    assert forall|i: int| 0 <= i < ls.len() implies crate::text::strip_cr(#[trigger] ls[i]) == ls[i] by {
        lemma_line_no_break(fs[i]);
        if ls[i].len() > 0 {
            assert(ls[i].last() == ls[i][ls[i].len() - 1]);
        }
    }
    assert(crate::text::strip_all(ls) =~= ls);
    assert(lines_of(file_of(fs)) =~= ls);
    lemma_tasks_of_own_lines(fs);
}
} // verus!
