//! Normalization of the archives' 14-digit `YYYYMMDDHHMMSS` first-seen dates:
//! parsing into calendar fields (the input carries no offset and is taken as
//! already UTC) and rendering as a round-trippable UTC timestamp,
//! `YYYY-MM-DDTHH:MM:SS+00:00`.

use vstd::prelude::*;
use vstd::string::StrSliceExecFns;
use vstd::string::StringExecFns;

verus! {

/// A UTC calendar time, field by field.
#[derive(Clone, Copy, Debug, PartialEq, Eq, Structural)]
pub struct Timestamp {
    pub year: u32,
    pub month: u32,
    pub day: u32,
    pub hour: u32,
    pub minute: u32,
    pub second: u32,
}

/// The value of a decimal digit character, or -1 for any other character.
pub open spec fn digit_val(c: char) -> int {
    if c == '0' {
        0
    } else if c == '1' {
        1
    } else if c == '2' {
        2
    } else if c == '3' {
        3
    } else if c == '4' {
        4
    } else if c == '5' {
        5
    } else if c == '6' {
        6
    } else if c == '7' {
        7
    } else if c == '8' {
        8
    } else if c == '9' {
        9
    } else {
        -1
    }
}

pub open spec fn is_digit(c: char) -> bool {
    digit_val(c) >= 0
}

pub open spec fn all_digits(s: Seq<char>) -> bool {
    forall|i: int| 0 <= i < s.len() ==> is_digit(#[trigger] s[i])
}

/// The two-digit number starting at position `i`.
pub open spec fn num2(s: Seq<char>, i: int) -> int {
    digit_val(s[i]) * 10 + digit_val(s[i + 1])
}

/// The four-digit number starting at position `i`.
pub open spec fn num4(s: Seq<char>, i: int) -> int {
    digit_val(s[i]) * 1000 + digit_val(s[i + 1]) * 100 + digit_val(s[i + 2]) * 10 + digit_val(
        s[i + 3],
    )
}

pub open spec fn leap_year(y: int) -> bool {
    y % 4 == 0 && (y % 100 != 0 || y % 400 == 0)
}

pub open spec fn days_in_month(y: int, m: int) -> int {
    if m == 2 {
        if leap_year(y) {
            29
        } else {
            28
        }
    } else if m == 4 || m == 6 || m == 9 || m == 11 {
        30
    } else {
        31
    }
}

/// Whether the fields name a real calendar time with a four-digit year.
pub open spec fn ts_valid(t: Timestamp) -> bool {
    &&& t.year <= 9999
    &&& 1 <= t.month <= 12
    &&& 1 <= t.day <= days_in_month(t.year as int, t.month as int)
    &&& t.hour <= 23
    &&& t.minute <= 59
    &&& t.second <= 59
}

/// What a date string denotes: fourteen digits read as fixed-width fields
/// `YYYY MM DD HH MM SS`, provided they name a real calendar time. Anything
/// else — in particular the empty string — denotes nothing.
pub open spec fn ts_of(s: Seq<char>) -> Option<Timestamp> {
    if s.len() == 14 && all_digits(s) {
        let t = Timestamp {
            year: num4(s, 0) as u32,
            month: num2(s, 4) as u32,
            day: num2(s, 6) as u32,
            hour: num2(s, 8) as u32,
            minute: num2(s, 10) as u32,
            second: num2(s, 12) as u32,
        };
        if ts_valid(t) {
            Some(t)
        } else {
            None
        }
    } else {
        None
    }
}

/// A parsed date is always a valid calendar time.
pub proof fn lemma_ts_of_valid(s: Seq<char>)
    ensures
        ts_of(s) matches Some(t) ==> ts_valid(t),
{
}

fn digit_at(s: &str, i: usize) -> (r: Option<u32>)
    requires
        i < s@.len(),
    ensures
        match r {
            Some(d) => d == digit_val(s@[i as int]) && d < 10,
            None => !is_digit(s@[i as int]),
        },
{
    let c = s.get_char(i);
    if c == '0' {
        Some(0)
    } else if c == '1' {
        Some(1)
    } else if c == '2' {
        Some(2)
    } else if c == '3' {
        Some(3)
    } else if c == '4' {
        Some(4)
    } else if c == '5' {
        Some(5)
    } else if c == '6' {
        Some(6)
    } else if c == '7' {
        Some(7)
    } else if c == '8' {
        Some(8)
    } else if c == '9' {
        Some(9)
    } else {
        None
    }
}

fn days_in_month_exec(y: u32, m: u32) -> (r: u32)
    requires
        1 <= m <= 12,
    ensures
        r == days_in_month(y as int, m as int),
{
    if m == 2 {
        if y % 4 == 0 && (y % 100 != 0 || y % 400 == 0) {
            29
        } else {
            28
        }
    } else if m == 4 || m == 6 || m == 9 || m == 11 {
        30
    } else {
        31
    }
}

/// Parse a provider's date string as the fixed-width `YYYYMMDDHHMMSS` form.
#[verifier::rlimit(60)]
pub fn parse_archive_date(s: &str) -> (r: Option<Timestamp>)
    ensures
        r == ts_of(s@),
{
    let n = s.unicode_len();
    if n != 14 {
        return None;
    }
    let mut ds: Vec<u32> = Vec::new();
    let mut i: usize = 0;
    while i < 14
        invariant
            s@.len() == 14,
            0 <= i <= 14,
            ds@.len() == i,
            forall|j: int|
                0 <= j < i ==> (#[trigger] ds@[j]) == digit_val(s@[j]) && is_digit(s@[j])
                    && ds@[j] < 10,
        decreases 14 - i,
    {
        match digit_at(s, i) {
            Some(d) => {
                ds.push(d);
                proof {
                    assert(ds@[i as int] == digit_val(s@[i as int]));
                    assert(forall|j: int| 0 <= j < i ==> ds@[j] == ds@.drop_last()[j]);
                }
            },
            None => {
                return None;
            },
        }
        i += 1;
    }
    proof {
        assert forall|k: int| 0 <= k < s@.len() implies is_digit(#[trigger] s@[k]) by {
            assert(ds@[k] == digit_val(s@[k]));
        }
        assert(all_digits(s@));
    }
    let year = ds[0] * 1000 + ds[1] * 100 + ds[2] * 10 + ds[3];
    let month = ds[4] * 10 + ds[5];
    let day = ds[6] * 10 + ds[7];
    let hour = ds[8] * 10 + ds[9];
    let minute = ds[10] * 10 + ds[11];
    let second = ds[12] * 10 + ds[13];
    let t = Timestamp { year, month, day, hour, minute, second };
    proof {
        assert(year == num4(s@, 0));
        assert(month == num2(s@, 4));
        assert(day == num2(s@, 6));
        assert(hour == num2(s@, 8));
        assert(minute == num2(s@, 10));
        assert(second == num2(s@, 12));
    }
    if month < 1 || month > 12 {
        return None;
    }
    if day < 1 || day > days_in_month_exec(year, month) {
        return None;
    }
    if hour > 23 || minute > 59 || second > 59 {
        return None;
    }
    Some(t)
}

/// The character for a decimal digit.
pub open spec fn digit_char(d: int) -> char {
    if d == 0 {
        '0'
    } else if d == 1 {
        '1'
    } else if d == 2 {
        '2'
    } else if d == 3 {
        '3'
    } else if d == 4 {
        '4'
    } else if d == 5 {
        '5'
    } else if d == 6 {
        '6'
    } else if d == 7 {
        '7'
    } else if d == 8 {
        '8'
    } else {
        '9'
    }
}

pub open spec fn two_digits(n: int) -> Seq<char> {
    seq![digit_char(n / 10), digit_char(n % 10)]
}

pub open spec fn four_digits(n: int) -> Seq<char> {
    seq![
        digit_char(n / 1000),
        digit_char((n / 100) % 10),
        digit_char((n / 10) % 10),
        digit_char(n % 10),
    ]
}

/// The normalized UTC rendering of a calendar time:
/// `YYYY-MM-DDTHH:MM:SS+00:00`.
pub open spec fn render_ts(t: Timestamp) -> Seq<char> {
    four_digits(t.year as int) + seq!['-'] + two_digits(t.month as int) + seq!['-'] + two_digits(
        t.day as int,
    ) + seq!['T'] + two_digits(t.hour as int) + seq![':'] + two_digits(t.minute as int)
        + seq![':'] + two_digits(t.second as int) + seq!['+', '0', '0', ':', '0', '0']
}

fn push_digit(out: &mut String, d: u32)
    requires
        d < 10,
    ensures
        final(out)@ == old(out)@ + seq![digit_char(d as int)],
{
    if d == 0 {
        out.append("0");
        proof {
            reveal_strlit("0");
            assert("0"@ =~= seq![digit_char(0)]);
        }
    } else if d == 1 {
        out.append("1");
        proof {
            reveal_strlit("1");
            assert("1"@ =~= seq![digit_char(1)]);
        }
    } else if d == 2 {
        out.append("2");
        proof {
            reveal_strlit("2");
            assert("2"@ =~= seq![digit_char(2)]);
        }
    } else if d == 3 {
        out.append("3");
        proof {
            reveal_strlit("3");
            assert("3"@ =~= seq![digit_char(3)]);
        }
    } else if d == 4 {
        out.append("4");
        proof {
            reveal_strlit("4");
            assert("4"@ =~= seq![digit_char(4)]);
        }
    } else if d == 5 {
        out.append("5");
        proof {
            reveal_strlit("5");
            assert("5"@ =~= seq![digit_char(5)]);
        }
    } else if d == 6 {
        out.append("6");
        proof {
            reveal_strlit("6");
            assert("6"@ =~= seq![digit_char(6)]);
        }
    } else if d == 7 {
        out.append("7");
        proof {
            reveal_strlit("7");
            assert("7"@ =~= seq![digit_char(7)]);
        }
    } else if d == 8 {
        out.append("8");
        proof {
            reveal_strlit("8");
            assert("8"@ =~= seq![digit_char(8)]);
        }
    } else {
        out.append("9");
        proof {
            reveal_strlit("9");
            assert("9"@ =~= seq![digit_char(9)]);
        }
    }
}

fn push_two_digits(out: &mut String, n: u32)
    requires
        n < 100,
    ensures
        final(out)@ == old(out)@ + two_digits(n as int),
{
    push_digit(out, n / 10);
    push_digit(out, n % 10);
    proof {
        assert(out@ =~= old(out)@ + two_digits(n as int));
    }
}

fn push_four_digits(out: &mut String, n: u32)
    requires
        n < 10000,
    ensures
        final(out)@ == old(out)@ + four_digits(n as int),
{
    push_digit(out, n / 1000);
    push_digit(out, (n / 100) % 10);
    push_digit(out, (n / 10) % 10);
    push_digit(out, n % 10);
    proof {
        assert(out@ =~= old(out)@ + four_digits(n as int));
    }
}

/// Render a valid calendar time in the normalized UTC form.
pub fn render_timestamp(t: &Timestamp) -> (r: String)
    requires
        ts_valid(*t),
    ensures
        r@ == render_ts(*t),
{
    let mut out = String::new();
    push_four_digits(&mut out, t.year);
    out.append("-");
    push_two_digits(&mut out, t.month);
    out.append("-");
    push_two_digits(&mut out, t.day);
    out.append("T");
    push_two_digits(&mut out, t.hour);
    out.append(":");
    push_two_digits(&mut out, t.minute);
    out.append(":");
    push_two_digits(&mut out, t.second);
    out.append("+00:00");
    proof {
        reveal_strlit("-");
        reveal_strlit("T");
        reveal_strlit(":");
        reveal_strlit("+00:00");
        assert("-"@ =~= seq!['-']);
        assert("T"@ =~= seq!['T']);
        assert(":"@ =~= seq![':']);
        assert("+00:00"@ =~= seq!['+', '0', '0', ':', '0', '0']);
        assert(out@ =~= render_ts(*t));
    }
    out
}

} // verus!
