//! Reading a due date typed as `YYYY-MM-DD` and an optional `HH:MM` into a
//! Unix timestamp (UTC).

use vstd::prelude::*;
use crate::text::chars_of;

verus! {

/// The pieces of `s` between the occurrences of `sep` (what `str::split` gives
/// for a character): one more piece than there are separators.
pub open spec fn split_on(s: Seq<char>, sep: char) -> Seq<Seq<char>>
    decreases s.len(),
{
    if s.len() == 0 {
        seq![Seq::<char>::empty()]
    } else {
        let p = split_on(s.drop_last(), sep);
        if s.last() == sep {
            p.push(Seq::<char>::empty())
        } else {
            p.update(p.len() - 1, p.last().push(s.last()))
        }
    }
}

/// `split_on` always gives at least one piece.
pub proof fn lemma_split_on_nonempty(s: Seq<char>, sep: char)
    ensures
        split_on(s, sep).len() >= 1,
    decreases s.len(),
{
    if s.len() > 0 {
        lemma_split_on_nonempty(s.drop_last(), sep);
    }
}

/// Splits `s` at each `sep`.
pub fn split_chars(s: &Vec<char>, sep: char) -> (parts: Vec<Vec<char>>)
    ensures
        parts@.len() == split_on(s@, sep).len(),
        forall|i: int| 0 <= i < parts@.len() ==> (#[trigger] parts@[i])@ == split_on(s@, sep)[i],
{
    let mut parts: Vec<Vec<char>> = Vec::new();
    let mut cur: Vec<char> = Vec::new();
    let mut i: usize = 0;
    while i < s.len()
        invariant
            i <= s@.len(),
            parts@.len() + 1 == split_on(s@.take(i as int), sep).len(),
            forall|k: int| 0 <= k < parts@.len() ==> (#[trigger] parts@[k])@ == split_on(s@.take(i as int), sep)[k],
            cur@ == split_on(s@.take(i as int), sep).last(),
        decreases s@.len() - i,
    {
        proof { lemma_split_on_nonempty(s@.take(i as int), sep); }
        assert(s@.take(i + 1).drop_last() =~= s@.take(i as int));
        if s[i] == sep {
            parts.push(cur);
            cur = Vec::new();
        } else {
            cur.push(s[i]);
        }
        i = i + 1;
    }
    assert(s@.take(i as int) =~= s@);
    parts.push(cur);
    parts
}

/// Whether `c` is an ASCII decimal digit.
pub open spec fn is_digit(c: char) -> bool {
    ('0' as int) <= (c as int) && (c as int) <= ('9' as int)
}

/// Whether `s` is a non-empty run of decimal digits.
pub open spec fn all_digits(s: Seq<char>) -> bool {
    s.len() > 0 && forall|i: int| 0 <= i < s.len() ==> is_digit(#[trigger] s[i])
}

/// The number written by the decimal digits `s`.
pub open spec fn digits_value(s: Seq<char>) -> int
    decreases s.len(),
{
    if s.len() == 0 {
        0
    } else {
        digits_value(s.drop_last()) * 10 + ((s.last() as int) - ('0' as int))
    }
}

/// The number `s` writes in decimal with an optional leading `+` (or, where
/// `signed`, `-`): what `str::parse` reads before checking the range.
pub open spec fn decimal_value(s: Seq<char>, signed: bool) -> Option<int> {
    if s.len() > 0 && s[0] == '+' {
        if all_digits(s.skip(1)) { Some(digits_value(s.skip(1))) } else { None }
    } else if signed && s.len() > 0 && s[0] == '-' {
        if all_digits(s.skip(1)) { Some(-digits_value(s.skip(1))) } else { None }
    } else if all_digits(s) {
        Some(digits_value(s))
    } else {
        None
    }
}

/// What `str::parse::<u32>` gives: the value when `s` is a decimal in range.
pub open spec fn parse_u32_spec(s: Seq<char>) -> Option<u32> {
    match decimal_value(s, false) {
        Some(v) => if 0 <= v <= u32::MAX { Some(v as u32) } else { None },
        None => None,
    }
}

/// What `str::parse::<i32>` gives: the value when `s` is a decimal in range.
pub open spec fn parse_i32_spec(s: Seq<char>) -> Option<i32> {
    match decimal_value(s, true) {
        Some(v) => if i32::MIN <= v <= i32::MAX { Some(v as i32) } else { None },
        None => None,
    }
}

/// Adding digits never makes the value smaller.
pub(crate) proof fn lemma_digits_grow(s: Seq<char>, i: int)
    requires
        0 <= i <= s.len(),
        forall|k: int| 0 <= k < s.len() ==> is_digit(#[trigger] s[k]),
    ensures
        digits_value(s.take(i)) <= digits_value(s),
        digits_value(s.take(i)) >= 0,
    decreases s.len() - i,
{
    if i < s.len() {
        lemma_digits_grow(s.drop_last(), if i <= s.len() - 1 { i } else { s.len() - 1 });
        assert(s.take(s.len() as int) =~= s);
        if i == s.len() - 1 {
            assert(s.drop_last() =~= s.take(i));
            assert(s.drop_last().take(i) =~= s.drop_last());
        } else {
            assert(s.drop_last().take(i) =~= s.take(i));
        }
        lemma_digits_nonneg(s.drop_last());
    } else {
        assert(s.take(i) =~= s);
        lemma_digits_nonneg(s);
    }
}

pub(crate) proof fn lemma_digits_nonneg(s: Seq<char>)
    requires
        forall|k: int| 0 <= k < s.len() ==> is_digit(#[trigger] s[k]),
    ensures
        digits_value(s) >= 0,
    decreases s.len(),
{
    if s.len() > 0 {
        lemma_digits_nonneg(s.drop_last());
    }
}

/// The value of the digits `s[from..]`, when they are all digits and the value
/// is at most `limit`.
fn digits_up_to(s: &Vec<char>, from: usize, limit: u64) -> (r: Option<u64>)
    requires
        from <= s@.len(),
        limit <= 0x1_0000_0000,
    ensures
        r matches Some(v) ==> all_digits(s@.skip(from as int)) && v == digits_value(s@.skip(from as int)) && v <= limit,
        r is None ==> !all_digits(s@.skip(from as int)) || digits_value(s@.skip(from as int)) > limit,
{
    let ghost t = s@.skip(from as int);
    if from == s.len() {
        return None;
    }
    let mut acc: u64 = 0;
    let mut i: usize = from;
    while i < s.len()
        invariant
            from <= i <= s@.len(),
            t == s@.skip(from as int),
            limit <= 0x1_0000_0000,
            acc <= limit,
            acc == digits_value(t.take(i - from)),
            forall|k: int| 0 <= k < i - from ==> is_digit(#[trigger] t[k]),
        decreases s@.len() - i,
    {
        let c = s[i];
        assert(t[i - from] == c);
        if !('0' <= c && c <= '9') {
            assert(!is_digit(t[i - from]));
            return None;
        }
        let d: u64 = (c as u32 - '0' as u32) as u64;
        assert(t.take(i - from + 1).drop_last() =~= t.take(i - from));
        let next = acc * 10 + d;
        if next > limit {
            proof {
                if all_digits(t) {
                    lemma_digits_grow(t, i - from + 1);
                }
            }
            return None;
        }
        acc = next;
        i = i + 1;
    }
    assert(t.take(i - from) =~= t);
    Some(acc)
}

/// Reads `s` as an unsigned 32-bit decimal, as `str::parse::<u32>` does.
pub fn parse_u32(s: &Vec<char>) -> (r: Option<u32>)
    ensures
        r == parse_u32_spec(s@),
{
    let from: usize = if s.len() > 0 && s[0] == '+' { 1 } else { 0 };
    assert(s@.skip(0) =~= s@);
    match digits_up_to(s, from, 0xFFFF_FFFF) {
        Some(v) => Some(v as u32),
        None => None,
    }
}

/// Reads `s` as a signed 32-bit decimal, as `str::parse::<i32>` does.
pub fn parse_i32(s: &Vec<char>) -> (r: Option<i32>)
    ensures
        r == parse_i32_spec(s@),
{
    assert(s@.skip(0) =~= s@);
    if s.len() > 0 && s[0] == '-' {
        match digits_up_to(s, 1, 0x8000_0000) {
            Some(v) => {
                let w: i64 = -(v as i64);
                Some(w as i32)
            },
            None => None,
        }
    } else {
        let from: usize = if s.len() > 0 && s[0] == '+' { 1 } else { 0 };
        match digits_up_to(s, from, 0x7FFF_FFFF) {
            Some(v) => Some(v as i32),
            None => None,
        }
    }
}

/// The first and last years that chrono's `NaiveDate` holds.
pub open spec fn min_year() -> int { -262143 }
pub open spec fn max_year() -> int { 262142 }

/// Whether `y` is a leap year of the proleptic Gregorian calendar.
pub open spec fn is_leap(y: int) -> bool {
    (y % 4 == 0 && y % 100 != 0) || y % 400 == 0
}

/// How many days month `m` of year `y` has.
pub open spec fn days_in_month(y: int, m: int) -> int {
    if m == 2 {
        if is_leap(y) { 29 } else { 28 }
    } else if m == 4 || m == 6 || m == 9 || m == 11 {
        30
    } else {
        31
    }
}

/// Whether `y-m-d` is a day of the calendar that chrono holds.
pub open spec fn valid_date(y: int, m: int, d: int) -> bool {
    min_year() <= y <= max_year() && 1 <= m <= 12 && 1 <= d <= days_in_month(y, m)
}

/// The number of days from 1970-01-01 to `y-m-d` in the proleptic Gregorian calendar.
pub open spec fn days_from_civil(y: int, m: int, d: int) -> int {
    let yy = if m <= 2 { y - 1 } else { y };
    let era = yy / 400;
    let yoe = yy - era * 400;
    let mp = if m > 2 { m - 3 } else { m + 9 };
    let doy = (153 * mp + 2) / 5 + d - 1;
    let doe = yoe * 365 + yoe / 4 - yoe / 100 + doy;
    era * 146097 + doe - 719468
}

/// chrono's `NaiveDate::from_ymd_opt` and `NaiveTime::from_hms_opt` (seconds 0),
/// then `NaiveDateTime::new`, `and_utc` and `DateTime::timestamp`: the seconds
/// from the Unix epoch to `year-month-day hour:minute` UTC, where the date is a
/// day chrono holds and the time a time of day.
#[verifier::external_body]
fn utc_timestamp(year: i32, month: u32, day: u32, hour: u32, minute: u32) -> (r: Option<i64>)
    ensures
        r is Some <==> (valid_date(year as int, month as int, day as int) && hour < 24 && minute < 60),
        r matches Some(t) ==> t == days_from_civil(year as int, month as int, day as int) * 86400 + hour * 3600 + minute * 60,
{
    let date = chrono::NaiveDate::from_ymd_opt(year, month, day)?;
    let time = chrono::NaiveTime::from_hms_opt(hour, minute, 0)?;
    Some(chrono::NaiveDateTime::new(date, time).and_utc().timestamp())
}

/// The hour and minute that `time` gives: midnight when empty, else `H:M`.
pub open spec fn time_of_day(time: Seq<char>) -> Option<(u32, u32)> {
    if time.len() == 0 {
        Some((0u32, 0u32))
    } else {
        let tp = split_on(time, ':');
        if tp.len() != 2 {
            None
        } else {
            match (parse_u32_spec(tp[0]), parse_u32_spec(tp[1])) {
                (Some(h), Some(mi)) => Some((h, mi)),
                _ => None,
            }
        }
    }
}

/// The timestamp that a due date `date` (`Y-M-D`) and time `time` (empty or
/// `H:M`) denote, as an unsigned number of seconds; `None` when they do not
/// read as a day and a time of day.
pub open spec fn due_timestamp(date: Seq<char>, time: Seq<char>) -> Option<u64> {
    let parts = split_on(date, '-');
    if parts.len() != 3 {
        None
    } else {
        match (parse_i32_spec(parts[0]), parse_u32_spec(parts[1]), parse_u32_spec(parts[2]), time_of_day(time)) {
            (Some(y), Some(mo), Some(d), Some((h, mi))) =>
                if valid_date(y as int, mo as int, d as int) && h < 24 && mi < 60 {
                    Some((days_from_civil(y as int, mo as int, d as int) * 86400 + h * 3600 + mi * 60) as u64)
                } else {
                    None
                },
            _ => None,
        }
    }
}

/// Reads a due date and time into a timestamp.
pub fn parse_datetime(date_str: &str, time_str: &str) -> (r: Option<u64>)
    ensures
        r == due_timestamp(date_str@, time_str@),
{
    let date = chars_of(date_str);
    let parts = split_chars(&date, '-');
    if parts.len() != 3 {
        return None;
    }
    let year = match parse_i32(&parts[0]) {
        Some(y) => y,
        None => return None,
    };
    let month = match parse_u32(&parts[1]) {
        Some(m) => m,
        None => return None,
    };
    let day = match parse_u32(&parts[2]) {
        Some(d) => d,
        None => return None,
    };
    let time = chars_of(time_str);
    let (hour, minute) = if time.len() == 0 {
        (0u32, 0u32)
    } else {
        let tp = split_chars(&time, ':');
        if tp.len() != 2 {
            return None;
        }
        let h = match parse_u32(&tp[0]) {
            Some(h) => h,
            None => return None,
        };
        let m = match parse_u32(&tp[1]) {
            Some(m) => m,
            None => return None,
        };
        (h, m)
    };
    match utc_timestamp(year, month, day, hour, minute) {
        Some(t) => Some(t as u64),
        None => None,
    }
}

} // verus!
