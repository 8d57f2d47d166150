//! Character- and string-level helpers shared by the rest of the library.

use vstd::prelude::*;
use vstd::string::*;

verus! {

/// Appends one character to a string (`String::push`).
#[verifier::external_body]
pub(crate) fn push_char(s: &mut String, c: char)
    ensures
        final(s)@ == old(s)@.push(c),
{
    s.push(c);
}

/// The characters of `s`, in order.
pub fn chars_of(s: &str) -> (v: Vec<char>)
    ensures
        v@ == s@,
{
    let n = s.unicode_len();
    let mut v: Vec<char> = Vec::new();
    let mut i: usize = 0;
    while i < n
        invariant
            i <= n,
            n == s@.len(),
            v@ == s@.subrange(0, i as int),
        decreases n - i,
    {
        v.push(s.get_char(i));
        i += 1;
    }
    v
}

/// Builds a string from a sequence of characters.
pub fn string_of(v: &Vec<char>) -> (s: String)
    ensures
        s@ == v@,
{
    let mut s = String::new();
    let mut i: usize = 0;
    while i < v.len()
        invariant
            i <= v.len(),
            s@ == v@.subrange(0, i as int),
        decreases v.len() - i,
    {
        push_char(&mut s, v[i]);
        i += 1;
    }
    s
}

/// What `str::to_lowercase` returns for a string.
pub uninterp spec fn str_lower(s: Seq<char>) -> Seq<char>;

/// What `char::to_lowercase` yields for a character.
pub uninterp spec fn char_lower(c: char) -> Seq<char>;

/// Whether `c` is an ASCII character.
pub open spec fn is_ascii_char(c: char) -> bool {
    (c as u32) < 0x80
}

/// The ASCII lower-case form of `c`: upper-case ASCII letters map to their
/// lower-case letter, everything else to itself.
pub open spec fn ascii_lower(c: char) -> char {
    if 0x41 <= (c as u32) && (c as u32) <= 0x5A {
        ((c as u32) + 32) as char
    } else {
        c
    }
}

/// `str::to_lowercase` of std. Its documentation gives the Unicode lower-case
/// mapping; stated here is only that a string of ASCII characters maps each
/// character to its ASCII lower case. The rest is left to the name `str_lower`.
#[verifier::external_body]
pub(crate) fn to_lowercase(s: &str) -> (r: String)
    ensures
        r@ == str_lower(s@),
        (forall|i: int| 0 <= i < s@.len() ==> is_ascii_char(#[trigger] s@[i]))
            ==> r@ == s@.map_values(|c: char| ascii_lower(c)),
{
    s.to_lowercase()
}

/// `char::to_lowercase` of std, collected into a string. For an ASCII
/// character it yields exactly its ASCII lower case; the rest is left to the
/// name `char_lower`.
#[verifier::external_body]
pub(crate) fn char_to_lowercase(c: char) -> (r: String)
    ensures
        r@ == char_lower(c),
        is_ascii_char(c) ==> r@ == seq![ascii_lower(c)],
{
    c.to_lowercase().collect()
}

/// Whether `needle` occurs in `hay` as a contiguous run of characters.
pub open spec fn occurs_in(needle: Seq<char>, hay: Seq<char>) -> bool {
    exists|i: int| 0 <= i && i + needle.len() <= hay.len() && #[trigger] hay.subrange(i, i + needle.len()) == needle
}

/// Whether `needle` occurs in `hay` (what `str::contains` answers for a string pattern).
pub fn contains_chars(hay: &Vec<char>, needle: &Vec<char>) -> (r: bool)
    ensures
        r == occurs_in(needle@, hay@),
{
    if needle.len() > hay.len() {
        return false;
    }
    if needle.len() == 0 {
        assert(hay@.subrange(0int, 0int + needle@.len()) =~= needle@);
        return true;
    }
    let last = hay.len() - needle.len();
    let mut i: usize = 0;
    while i <= last
        invariant
            last + needle@.len() == hay@.len(),
            needle@.len() > 0,
            hay@.len() == hay.len(),
            i <= last + 1,
            forall|j: int| 0 <= j < i ==> #[trigger] hay@.subrange(j, j + needle@.len()) != needle@,
        decreases last + 1 - i,
    {
        let mut k: usize = 0;
        let mut same = true;
        while k < needle.len() && same
            invariant
                i <= last,
                last + needle@.len() == hay@.len(),
                hay@.len() == hay.len(),
                k <= needle@.len(),
                same ==> forall|m: int| 0 <= m < k ==> hay@[i + m] == needle@[m],
                !same ==> k > 0 && hay@[i + k - 1] != needle@[k - 1],
            decreases needle@.len() - k + if same { 1int } else { 0int },
        {
            if hay[i + k] != needle[k] {
                same = false;
            }
            k = k + 1;
        }
        if same {
            assert(hay@.subrange(i as int, i + needle@.len()) =~= needle@);
            return true;
        } else {
            assert(hay@.subrange(i as int, i + needle@.len())[k - 1] != needle@[k - 1]);
        }
        i = i + 1;
    }
    assert forall|j: int| 0 <= j && j + needle@.len() <= hay@.len() implies
        #[trigger] hay@.subrange(j, j + needle@.len()) != needle@ by {}
    false
}

/// Whether `c` has the Unicode `White_Space` property (what `char::is_whitespace` answers).
pub open spec fn is_white(c: char) -> bool {
    let u = c as u32;
    (0x09 <= u && u <= 0x0D) || u == 0x20 || u == 0x85 || u == 0xA0 || u == 0x1680
        || (0x2000 <= u && u <= 0x200A) || u == 0x2028 || u == 0x2029 || u == 0x202F
        || u == 0x205F || u == 0x3000
}

/// Whether `c` is white space.
pub fn is_whitespace(c: char) -> (r: bool)
    ensures
        r == is_white(c),
{
    let u = c as u32;
    (0x09 <= u && u <= 0x0D) || u == 0x20 || u == 0x85 || u == 0xA0 || u == 0x1680
        || (0x2000 <= u && u <= 0x200A) || u == 0x2028 || u == 0x2029 || u == 0x202F
        || u == 0x205F || u == 0x3000
}

/// Index of the first character of `s` that is not white space (or `s.len()`).
pub open spec fn trim_start_index(s: Seq<char>) -> int
    decreases s.len(),
{
    if s.len() == 0 {
        0
    } else if is_white(s[0]) {
        1 + trim_start_index(s.drop_first())
    } else {
        0
    }
}

/// Index just after the last character of `s` that is not white space (or 0).
pub open spec fn trim_end_index(s: Seq<char>) -> int
    decreases s.len(),
{
    if s.len() == 0 {
        0
    } else if is_white(s.last()) {
        trim_end_index(s.drop_last())
    } else {
        s.len() as int
    }
}

/// `s` without leading and trailing white space (what `str::trim` gives).
pub open spec fn trimmed(s: Seq<char>) -> Seq<char> {
    if trim_start_index(s) >= trim_end_index(s) {
        Seq::empty()
    } else {
        s.subrange(trim_start_index(s), trim_end_index(s))
    }
}

proof fn lemma_trim_start(s: Seq<char>, i: int)
    requires
        0 <= i <= s.len(),
        forall|j: int| 0 <= j < i ==> is_white(#[trigger] s[j]),
        i == s.len() || !is_white(s[i]),
    ensures
        trim_start_index(s) == i,
    decreases s.len(),
{
    if s.len() > 0 && i > 0 {
        assert forall|j: int| 0 <= j < i - 1 implies is_white(#[trigger] s.drop_first()[j]) by {
            assert(s.drop_first()[j] == s[j + 1]);
        }
        lemma_trim_start(s.drop_first(), i - 1);
    }
}

proof fn lemma_trim_end(s: Seq<char>, e: int)
    requires
        0 <= e <= s.len(),
        forall|j: int| e <= j < s.len() ==> is_white(#[trigger] s[j]),
        e == 0 || !is_white(s[e - 1]),
    ensures
        trim_end_index(s) == e,
    decreases s.len(),
{
    if s.len() > 0 && e < s.len() {
        assert forall|j: int| e <= j < s.len() - 1 implies is_white(#[trigger] s.drop_last()[j]) by {
            assert(s.drop_last()[j] == s[j]);
        }
        lemma_trim_end(s.drop_last(), e);
    }
}

/// Text with no white space at either end is its own trimmed form.
pub proof fn lemma_trim_plain(s: Seq<char>)
    requires
        s.len() == 0 || (!is_white(s[0]) && !is_white(s.last())),
    ensures
        trimmed(s) == s,
{
    if s.len() > 0 {
        lemma_trim_start(s, 0);
        lemma_trim_end(s, s.len() as int);
        assert(s.subrange(0, s.len() as int) =~= s);
    }
}

/// `s` without leading and trailing white space.
pub fn trim_chars(s: &Vec<char>) -> (r: Vec<char>)
    ensures
        r@ == trimmed(s@),
{
    let mut a: usize = 0;
    while a < s.len() && is_whitespace(s[a])
        invariant
            a <= s@.len(),
            forall|j: int| 0 <= j < a ==> is_white(#[trigger] s@[j]),
        decreases s@.len() - a,
    {
        a = a + 1;
    }
    proof { lemma_trim_start(s@, a as int); }
    let mut e: usize = s.len();
    while e > 0 && is_whitespace(s[e - 1])
        invariant
            e <= s@.len(),
            forall|j: int| e <= j < s@.len() ==> is_white(#[trigger] s@[j]),
        decreases e,
    {
        e = e - 1;
    }
    proof { lemma_trim_end(s@, e as int); }
    let mut r: Vec<char> = Vec::new();
    if a < e {
        let mut i: usize = a;
        while i < e
            invariant
                a <= i <= e,
                e <= s@.len(),
                r@ == s@.subrange(a as int, i as int),
            decreases e - i,
        {
            r.push(s[i]);
            i = i + 1;
        }
    }
    proof {
        if !(a < e) {
            assert(r@ =~= Seq::<char>::empty());
        }
    }
    r
}

/// `s` without leading and trailing white space.
pub fn trim_str(s: &str) -> (r: String)
    ensures
        r@ == trimmed(s@),
{
    let v = chars_of(s);
    let t = trim_chars(&v);
    string_of(&t)
}

/// Whether `s` is empty once white space is removed from both ends.
pub fn is_blank(s: &str) -> (r: bool)
    ensures
        r == (trimmed(s@).len() == 0),
{
    let v = chars_of(s);
    let t = trim_chars(&v);
    t.len() == 0
}

/// `t` with each `{}` replaced by `by`, scanning from the left.
pub open spec fn fill_braces(t: Seq<char>, by: Seq<char>) -> Seq<char>
    decreases t.len(),
{
    if t.len() == 0 {
        Seq::empty()
    } else if t.len() >= 2 && t[0] == '{' && t[1] == '}' {
        by + fill_braces(t.skip(2), by)
    } else {
        seq![t[0]] + fill_braces(t.skip(1), by)
    }
}

proof fn lemma_fill_braces_step(t: Seq<char>, by: Seq<char>, i: int)
    requires
        0 <= i < t.len(),
    ensures
        i + 2 <= t.len() && t[i] == '{' && t[i + 1] == '}' ==>
            fill_braces(t.skip(i), by) == by + fill_braces(t.skip(i + 2), by),
        !(i + 2 <= t.len() && t[i] == '{' && t[i + 1] == '}') ==>
            fill_braces(t.skip(i), by) == seq![t[i]] + fill_braces(t.skip(i + 1), by),
{
    let u = t.skip(i);
    if i + 2 <= t.len() {
        assert(u.skip(2) =~= t.skip(i + 2));
    }
    assert(u.skip(1) =~= t.skip(i + 1));
}

/// `template` with each `{}` replaced by `value` (what `str::replace("{}", value)` gives).
pub fn fill_placeholder(template: &str, value: &str) -> (r: String)
    ensures
        r@ == fill_braces(template@, value@),
{
    let t = chars_of(template);
    let v = chars_of(value);
    let mut out: Vec<char> = Vec::new();
    let mut i: usize = 0;
    assert(t@.skip(0) =~= t@);
    assert(out@ + fill_braces(t@, v@) =~= fill_braces(t@, v@));
    while i < t.len()
        invariant
            i <= t@.len(),
            out@ + fill_braces(t@.skip(i as int), v@) == fill_braces(t@, v@),
        decreases t@.len() - i,
    {
        proof { lemma_fill_braces_step(t@, v@, i as int); }
        if i + 1 < t.len() && t[i] == '{' && t[i + 1] == '}' {
            let ghost before = out@;
            let mut k: usize = 0;
            while k < v.len()
                invariant
                    k <= v@.len(),
                    out@ == before + v@.take(k as int),
                decreases v@.len() - k,
            {
                out.push(v[k]);
                assert(v@.take(k + 1) =~= v@.take(k as int).push(v@[k as int]));
                k = k + 1;
            }
            assert(v@.take(v@.len() as int) =~= v@);
            assert(out@ + fill_braces(t@.skip(i + 2), v@) =~= before + (v@ + fill_braces(t@.skip(i + 2), v@)));
            i = i + 2;
        } else {
            let ghost before = out@;
            out.push(t[i]);
            assert(out@ + fill_braces(t@.skip(i + 1), v@) =~= before + (seq![t@[i as int]] + fill_braces(t@.skip(i + 1), v@)));
            i = i + 1;
        }
    }
    assert(t@.skip(i as int) =~= Seq::<char>::empty());
    assert(out@ + Seq::<char>::empty() =~= out@);
    string_of(&out)
}

/// The decimal digits of `n`, without leading zeros.
pub open spec fn decimal(n: nat) -> Seq<char>
    decreases n,
{
    if n < 10 {
        seq![('0' as u32 + n) as char]
    } else {
        decimal(n / 10).push(('0' as u32 + (n % 10)) as char)
    }
}

/// The decimal form of `n` (what `usize::to_string` gives).
pub fn decimal_string(n: usize) -> (r: String)
    ensures
        r@ == decimal(n as nat),
{
    decimal_string_u64(n as u64)
}

/// The decimal digits of a 64-bit number.
pub fn decimal_string_u64(n: u64) -> (r: String)
    ensures
        r@ == decimal(n as nat),
{
    let mut digits: Vec<char> = Vec::new();
    let mut m: u64 = n;
    // digits holds the low-order digits of n in reverse, m the rest
    loop
        invariant
            m <= n,
            decimal(n as nat) == decimal(m as nat) + digits@.reverse(),
            m > 0 || n == 0,
        decreases m,
    {
        if m < 10 {
            let d = char_digit(m as u32);
            let mut out: Vec<char> = Vec::new();
            out.push(d);
            let mut i = digits.len();
            while i > 0
                invariant
                    i <= digits@.len(),
                    out@ == seq![d] + digits@.skip(i as int).reverse(),
                decreases i,
            {
                i = i - 1;
                out.push(digits[i]);
                assert(digits@.skip(i as int).reverse() =~= digits@.skip(i + 1).reverse().push(digits@[i as int]));
            }
            assert(digits@.skip(0) =~= digits@);
            return string_of(&out);
        }
        let d = char_digit((m % 10) as u32);
        let ghost old_digits = digits@;
        digits.push(d);
        assert(digits@.reverse() =~= seq![d] + old_digits.reverse());
        assert(decimal(m as nat) == decimal((m / 10) as nat).push(d));
        assert(decimal((m / 10) as nat).push(d) + old_digits.reverse() =~= decimal((m / 10) as nat) + digits@.reverse());
        m = m / 10;
    }
}

/// The digit character for `d` (below 10).
fn char_digit(d: u32) -> (c: char)
    requires
        d < 10,
    ensures
        c == ('0' as u32 + d) as char,
{
    if d == 0 { '0' } else if d == 1 { '1' } else if d == 2 { '2' } else if d == 3 { '3' }
    else if d == 4 { '4' } else if d == 5 { '5' } else if d == 6 { '6' } else if d == 7 { '7' }
    else if d == 8 { '8' } else { '9' }
}

/// Whether two strings hold the same characters.
pub fn same_text(a: &str, b: &str) -> (r: bool)
    ensures
        r == (a@ == b@),
{
    let n = a.unicode_len();
    if n != b.unicode_len() {
        return false;
    }
    let mut i: usize = 0;
    while i < n
        invariant
            i <= n,
            n == a@.len(),
            n == b@.len(),
            forall|j: int| 0 <= j < i ==> a@[j] == b@[j],
        decreases n - i,
    {
        if a.get_char(i) != b.get_char(i) {
            return false;
        }
        i = i + 1;
    }
    assert(a@ =~= b@);
    true
}

/// `key` without `prefix`, where `key` starts with `prefix`.
pub open spec fn strip_prefix(key: Seq<char>, prefix: Seq<char>) -> Option<Seq<char>> {
    if prefix.len() <= key.len() && key.take(prefix.len() as int) == prefix {
        Some(key.skip(prefix.len() as int))
    } else {
        None
    }
}

/// `key` without `prefix`, where `key` starts with `prefix` (what `str::strip_prefix` gives).
pub fn strip_prefix_str(key: &str, prefix: &str) -> (r: Option<String>)
    ensures
        r matches Some(s) ==> strip_prefix(key@, prefix@) == Some(s@),
        r is None ==> strip_prefix(key@, prefix@) is None,
{
    let k = chars_of(key);
    let p = chars_of(prefix);
    if p.len() > k.len() {
        return None;
    }
    let mut i: usize = 0;
    while i < p.len()
        invariant
            i <= p@.len(),
            p@.len() <= k@.len(),
            k@ == key@,
            p@ == prefix@,
            forall|j: int| 0 <= j < i ==> k@[j] == p@[j],
        decreases p@.len() - i,
    {
        if k[i] != p[i] {
            assert(k@.take(p@.len() as int)[i as int] != p@[i as int]);
            assert(k@.take(p@.len() as int) != p@);
            assert(key@.take(prefix@.len() as int) != prefix@);
            return None;
        }
        i = i + 1;
    }
    assert(k@.take(p@.len() as int) =~= p@);
    let mut rest: Vec<char> = Vec::new();
    let mut j: usize = p.len();
    while j < k.len()
        invariant
            p@.len() <= j <= k@.len(),
            rest@ == k@.subrange(p@.len() as int, j as int),
        decreases k@.len() - j,
    {
        rest.push(k[j]);
        j = j + 1;
    }
    assert(rest@ =~= k@.skip(p@.len() as int));
    Some(string_of(&rest))
}

/// Whether `a` comes before `b` in the order of their characters' code points,
/// a proper prefix first (the order of `str`'s `Ord`).
pub open spec fn lex_lt(a: Seq<char>, b: Seq<char>) -> bool
    decreases a.len(),
{
    if a.len() == 0 {
        b.len() > 0
    } else if b.len() == 0 {
        false
    } else if a[0] != b[0] {
        (a[0] as int) < (b[0] as int)
    } else {
        lex_lt(a.drop_first(), b.drop_first())
    }
}

/// No sequence comes before itself, and of two, at most one comes first.
pub proof fn lemma_lex_asym(a: Seq<char>, b: Seq<char>)
    ensures
        !(lex_lt(a, b) && lex_lt(b, a)),
        !lex_lt(a, a),
    decreases a.len(),
{
    if a.len() > 0 && b.len() > 0 {
        lemma_lex_asym(a.drop_first(), b.drop_first());
    }
    if a.len() > 0 {
        lemma_lex_asym(a.drop_first(), a.drop_first());
    }
}

/// Of two different sequences, one comes first.
pub proof fn lemma_lex_total(a: Seq<char>, b: Seq<char>)
    requires
        a != b,
    ensures
        lex_lt(a, b) || lex_lt(b, a),
    decreases a.len(),
{
    if a.len() > 0 && b.len() > 0 && a[0] == b[0] {
        if a.drop_first() == b.drop_first() {
            assert(a =~= seq![a[0]] + a.drop_first());
            assert(b =~= seq![b[0]] + b.drop_first());
        }
        lemma_lex_total(a.drop_first(), b.drop_first());
    } else if a.len() > 0 && b.len() > 0 {
        assert((a[0] as int) != (b[0] as int));
    } else if a.len() == 0 && b.len() == 0 {
        assert(a =~= b);
    }
}

/// The order is transitive.
pub proof fn lemma_lex_trans(a: Seq<char>, b: Seq<char>, c: Seq<char>)
    requires
        lex_lt(a, b),
        lex_lt(b, c),
    ensures
        lex_lt(a, c),
    decreases a.len(),
{
    if a.len() > 0 && b.len() > 0 && c.len() > 0 && a[0] == b[0] && b[0] == c[0] {
        lemma_lex_trans(a.drop_first(), b.drop_first(), c.drop_first());
    }
}

/// Whether `a` comes before `b` in code-point order.
pub fn lex_less(a: &str, b: &str) -> (r: bool)
    ensures
        r == lex_lt(a@, b@),
{
    let x = chars_of(a);
    let y = chars_of(b);
    let mut i: usize = 0;
    assert(x@.skip(0) =~= x@);
    assert(y@.skip(0) =~= y@);
    while i < x.len() && i < y.len() && x[i] == y[i]
        invariant
            i <= x@.len(),
            i <= y@.len(),
            lex_lt(x@, y@) == lex_lt(x@.skip(i as int), y@.skip(i as int)),
        decreases x@.len() - i,
    {
        let ghost xs = x@.skip(i as int);
        let ghost ys = y@.skip(i as int);
        assert(xs.drop_first() =~= x@.skip(i + 1));
        assert(ys.drop_first() =~= y@.skip(i + 1));
        i = i + 1;
    }
    let ghost xs = x@.skip(i as int);
    let ghost ys = y@.skip(i as int);
    if i == x.len() {
        assert(xs.len() == 0);
        i < y.len()
    } else if i == y.len() {
        false
    } else {
        assert(xs[0] == x@[i as int] && ys[0] == y@[i as int]);
        x[i] < y[i]
    }
}

/// The lower case of every character of `s` that is not white space, in order.
pub open spec fn lower_non_white(s: Seq<char>) -> Seq<char>
    decreases s.len(),
{
    if s.len() == 0 {
        Seq::empty()
    } else if is_white(s.last()) {
        lower_non_white(s.drop_last())
    } else {
        lower_non_white(s.drop_last()) + char_lower(s.last())
    }
}

/// A tag as typed, cleaned: white space dropped, lower case, at most 32 characters.
pub open spec fn clean_tag(raw: Seq<char>) -> Seq<char> {
    let l = lower_non_white(raw);
    if l.len() <= 32 { l } else { l.take(32) }
}

/// Cleans a typed tag: drops white space, lowers the case, keeps at most 32 characters.
pub fn clean_tag_str(raw: &str) -> (r: String)
    ensures
        r@ == clean_tag(raw@),
{
    let v = chars_of(raw);
    let mut out: Vec<char> = Vec::new();
    let mut i: usize = 0;
    while i < v.len()
        invariant
            i <= v@.len(),
            out@ == clean_tag(v@.take(i as int)),
        decreases v@.len() - i,
    {
        let ghost pre = v@.take(i as int);
        assert(v@.take(i + 1).drop_last() =~= pre);
        let c = v[i];
        if !is_whitespace(c) {
            let low = char_to_lowercase(c);
            let lv = chars_of(low.as_str());
            let ghost l0 = lower_non_white(pre);
            let mut k: usize = 0;
            while k < lv.len() && out.len() < 32
                invariant
                    k <= lv@.len(),
                    out@ == (if l0.len() + k <= 32 { l0 + lv@.take(k as int) } else { (l0 + lv@.take(k as int)).take(32) }),
                    out@.len() <= 32,
                    out@.len() == if l0.len() + k <= 32 { l0.len() + k } else { 32 },
                decreases lv@.len() - k,
            {
                assert(lv@.take(k + 1) =~= lv@.take(k as int).push(lv@[k as int]));
                assert((l0 + lv@.take(k + 1)) =~= (l0 + lv@.take(k as int)).push(lv@[k as int]));
                out.push(lv[k]);
                k = k + 1;
            }
            proof {
                let whole = l0 + lv@;
                assert(lower_non_white(v@.take(i + 1)) == whole);
                if k < lv@.len() {
                    assert(out@.len() == 32);
                    assert(l0.len() + k >= 32);
                    if l0.len() + k == 32 {
                        assert(out@ =~= whole.take(32));
                    } else {
                        assert(out@ =~= whole.take(32));
                    }
                } else {
                    assert(lv@.take(k as int) =~= lv@);
                }
            }
        }
        i = i + 1;
    }
    assert(v@.take(i as int) =~= v@);
    string_of(&out)
}


/// The pieces of `s` between newlines: the finished pieces (each without its
/// `\n`) and the piece still open at the end.
pub open spec fn split_newlines(s: Seq<char>) -> (Seq<Seq<char>>, Seq<char>)
    decreases s.len(),
{
    if s.len() == 0 {
        (Seq::<Seq<char>>::empty(), Seq::<char>::empty())
    } else {
        let prev = split_newlines(s.drop_last());
        if s.last() == '\n' {
            (prev.0.push(prev.1), Seq::<char>::empty())
        } else {
            (prev.0, prev.1.push(s.last()))
        }
    }
}

/// A piece that ended in `\n` loses one `\r` before it.
pub open spec fn strip_cr(l: Seq<char>) -> Seq<char> {
    if l.len() > 0 && l.last() == '\r' {
        l.drop_last()
    } else {
        l
    }
}

/// Each finished piece with its `\r` dropped.
pub open spec fn strip_all(ps: Seq<Seq<char>>) -> Seq<Seq<char>> {
    ps.map_values(|l: Seq<char>| strip_cr(l))
}

/// The lines of `s` as `str::lines` gives them: split at `\n` or `\r\n`,
/// with no empty line after a final line ending.
pub open spec fn lines_of(s: Seq<char>) -> Seq<Seq<char>> {
    let p = split_newlines(s);
    strip_all(p.0) + if p.1.len() > 0 {
        seq![p.1]
    } else {
        Seq::<Seq<char>>::empty()
    }
}

/// The views of a sequence of character vectors.
pub open spec fn views(v: Seq<Vec<char>>) -> Seq<Seq<char>> {
    v.map_values(|l: Vec<char>| l@)
}

/// A copy of the characters `v`.
pub fn copy_chars(v: &Vec<char>) -> (r: Vec<char>)
    ensures
        r@ == v@,
{
    let mut r: Vec<char> = Vec::new();
    let mut i: usize = 0;
    while i < v.len()
        invariant
            i <= v.len(),
            r@ == v@.take(i as int),
        decreases v.len() - i,
    {
        r.push(v[i]);
        assert(v@.take(i + 1) =~= v@.take(i as int).push(v@[i as int]));
        i += 1;
    }
    assert(v@.take(v@.len() as int) =~= v@);
    r
}

/// The characters of `a` followed by those of `b`.
pub fn join_chars(a: &Vec<char>, b: &Vec<char>) -> (r: Vec<char>)
    ensures
        r@ == a@ + b@,
{
    let mut r = copy_chars(a);
    let mut i: usize = 0;
    while i < b.len()
        invariant
            i <= b.len(),
            r@ == a@ + b@.take(i as int),
        decreases b.len() - i,
    {
        r.push(b[i]);
        assert(b@.take(i + 1) =~= b@.take(i as int).push(b@[i as int]));
        assert(a@ + b@.take(i + 1) =~= (a@ + b@.take(i as int)).push(b@[i as int]));
        i += 1;
    }
    assert(b@.take(b@.len() as int) =~= b@);
    r
}

/// Drops one trailing `\r`.
fn strip_cr_vec(v: Vec<char>) -> (r: Vec<char>)
    ensures
        r@ == strip_cr(v@),
{
    let mut v = v;
    if v.len() > 0 && v[v.len() - 1] == '\r' {
        v.pop();
    }
    v
}

/// The lines of `s`, as `str::lines` splits them.
pub fn split_lines(s: &str) -> (r: Vec<Vec<char>>)
    ensures
        views(r@) == lines_of(s@),
{
    let v = chars_of(s);
    let mut done: Vec<Vec<char>> = Vec::new();
    let mut cur: Vec<char> = Vec::new();
    let mut i: usize = 0;
    while i < v.len()
        invariant
            i <= v.len(),
            v@ == s@,
            views(done@) == strip_all(split_newlines(v@.take(i as int)).0),
            cur@ == split_newlines(v@.take(i as int)).1,
        decreases v.len() - i,
    {
        let ghost before = v@.take(i as int);
        assert(v@.take(i + 1).drop_last() =~= before);
        let c = v[i];
        if c == '\n' {
            let piece = strip_cr_vec(cur);
            proof {
                let p = split_newlines(before);
                assert(piece@ == strip_cr(p.1));
                let lhs = views(done@.push(piece));
                let rhs = strip_all(p.0.push(p.1));
                assert(views(done@).len() == done@.len());
                assert(strip_all(p.0).len() == p.0.len());
                assert(views(done@) == strip_all(p.0));
                assert(done@.len() == p.0.len());
                assert(lhs.len() == rhs.len());
                assert forall|k: int| 0 <= k < lhs.len() implies lhs[k] == rhs[k] by {
                    if k < done@.len() {
                        assert(lhs[k] == views(done@)[k]);
                        assert(rhs[k] == strip_all(p.0)[k]);
                    }
                }
                assert(lhs =~= rhs);
            }
            done.push(piece);
            cur = Vec::new();
        } else {
            cur.push(c);
        }
        i += 1;
    }
    assert(v@.take(v@.len() as int) =~= v@);
    if cur.len() > 0 {
        let ghost d = done@;
        done.push(cur);
        assert(views(done@) =~= views(d) + seq![split_newlines(s@).1]);
    } else {
        assert(views(done@) =~= views(done@) + Seq::<Seq<char>>::empty());
    }
    done
}

} // verus!
