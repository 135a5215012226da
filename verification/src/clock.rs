//! Calendar time as plain values, with the fixed-width stamp format that
//! names backup directories, its parser, and the wall-clock readings the
//! subsystem records.

use vstd::prelude::*;

verus! {

/// A UTC calendar date and clock time, held as plain fields.
#[derive(Clone, Copy, PartialEq, Eq, Structural, Debug)]
pub struct UtcDateTime {
    pub year: i32,
    pub month: u8,
    pub day: u8,
    pub hour: u8,
    pub minute: u8,
    pub second: u8,
}

impl UtcDateTime {
    /// Field ranges of a calendar reading.
    pub open spec fn wf(self) -> bool {
        &&& 1 <= self.month <= 12
        &&& 1 <= self.day <= 31
        &&& self.hour <= 23
        &&& self.minute <= 59
        &&& self.second <= 59
    }
}

/// Relies on chrono's `Utc::now().timestamp()`: the current time as
/// seconds since the Unix epoch. Nothing is assumed of the value.
#[verifier::external_body]
pub(crate) fn now_epoch_secs() -> (r: i64) {
    chrono::Utc::now().timestamp()
}

/// The decimal digit characters, by value.
pub open spec fn digit_char(d: int) -> char {
    if d == 0 {
        '0'
    } else if d == 1 {
        '1'
    } else if d == 2 {
        '2'
    } else if d == 3 {
        '3'
    } else if d == 4 {
        '4'
    } else if d == 5 {
        '5'
    } else if d == 6 {
        '6'
    } else if d == 7 {
        '7'
    } else if d == 8 {
        '8'
    } else {
        '9'
    }
}

/// Whether `c` is a decimal digit character.
pub open spec fn is_digit_char(c: char) -> bool {
    c == '0' || c == '1' || c == '2' || c == '3' || c == '4' || c == '5' || c == '6' || c == '7'
        || c == '8' || c == '9'
}

/// The value of a decimal digit character.
pub open spec fn digit_val(c: char) -> int {
    if c == '0' {
        0
    } else if c == '1' {
        1
    } else if c == '2' {
        2
    } else if c == '3' {
        3
    } else if c == '4' {
        4
    } else if c == '5' {
        5
    } else if c == '6' {
        6
    } else if c == '7' {
        7
    } else if c == '8' {
        8
    } else {
        9
    }
}

/// Two decimal digits, high first.
pub open spec fn dec2(n: int) -> Seq<char> {
    seq![digit_char(n / 10), digit_char(n % 10)]
}

/// Four decimal digits, high first.
pub open spec fn dec4(n: int) -> Seq<char> {
    seq![
        digit_char(n / 1000),
        digit_char((n / 100) % 10),
        digit_char((n / 10) % 10),
        digit_char(n % 10),
    ]
}

/// The fixed-width stamp that names a backup: date, an underscore, time.
pub open spec fn stamp_chars(t: UtcDateTime) -> Seq<char> {
    dec4(t.year as int) + dec2(t.month as int) + dec2(t.day as int) + seq!['_'] + dec2(
        t.hour as int,
    ) + dec2(t.minute as int) + dec2(t.second as int)
}

/// The human-readable form of a stamp: date, a space, colon-separated time.
pub open spec fn pretty_chars(t: UtcDateTime) -> Seq<char> {
    dec4(t.year as int) + seq!['-'] + dec2(t.month as int) + seq!['-'] + dec2(t.day as int)
        + seq![' '] + dec2(t.hour as int) + seq![':'] + dec2(t.minute as int) + seq![':'] + dec2(
        t.second as int,
    )
}

/// The timestamp form used in export metadata: date `T` time `+00:00`.
pub open spec fn rfc3339_chars(t: UtcDateTime) -> Seq<char> {
    dec4(t.year as int) + seq!['-'] + dec2(t.month as int) + seq!['-'] + dec2(t.day as int)
        + seq!['T'] + dec2(t.hour as int) + seq![':'] + dec2(t.minute as int) + seq![':'] + dec2(
        t.second as int,
    ) + seq!['+', '0', '0', ':', '0', '0']
}

/// The one-character string of a decimal digit value.
fn digit_str(d: u8) -> (r: &'static str)
    requires
        d <= 9,
    ensures
        r@ =~= seq![digit_char(d as int)],
{
    let r = match d {
        0 => "0",
        1 => "1",
        2 => "2",
        3 => "3",
        4 => "4",
        5 => "5",
        6 => "6",
        7 => "7",
        8 => "8",
        _ => "9",
    };
    proof {
        reveal_strlit("0");
        reveal_strlit("1");
        reveal_strlit("2");
        reveal_strlit("3");
        reveal_strlit("4");
        reveal_strlit("5");
        reveal_strlit("6");
        reveal_strlit("7");
        reveal_strlit("8");
        reveal_strlit("9");
    }
    r
}

/// Appends the two-digit decimal form of `n`.
fn push_dec2(s: &mut String, n: u8)
    requires
        n <= 99,
    ensures
        final(s)@ == old(s)@ + dec2(n as int),
{
    s.append(digit_str(n / 10));
    s.append(digit_str(n % 10));
    proof {
        assert(final(s)@ =~= old(s)@ + dec2(n as int));
    }
}

/// Appends the four-digit decimal form of `n`.
fn push_dec4(s: &mut String, n: u16)
    requires
        n <= 9999,
    ensures
        final(s)@ == old(s)@ + dec4(n as int),
{
    s.append(digit_str((n / 1000) as u8));
    s.append(digit_str(((n / 100) % 10) as u8));
    s.append(digit_str(((n / 10) % 10) as u8));
    s.append(digit_str((n % 10) as u8));
    proof {
        assert(final(s)@ =~= old(s)@ + dec4(n as int));
    }
}

/// Formats the stamp that names a backup directory.
pub fn format_stamp(t: &UtcDateTime) -> (r: String)
    requires
        t.wf(),
        0 <= t.year <= 9999,
    ensures
        r@ == stamp_chars(*t),
{
    let mut s = String::new();
    push_dec4(&mut s, t.year as u16);
    push_dec2(&mut s, t.month);
    push_dec2(&mut s, t.day);
    s.append("_");
    push_dec2(&mut s, t.hour);
    push_dec2(&mut s, t.minute);
    push_dec2(&mut s, t.second);
    proof {
        reveal_strlit("_");
        assert(s@ =~= stamp_chars(*t));
    }
    s
}

/// Formats the human-readable form of a calendar reading.
pub fn format_pretty(t: &UtcDateTime) -> (r: String)
    requires
        t.wf(),
        0 <= t.year <= 9999,
    ensures
        r@ == pretty_chars(*t),
{
    let mut s = String::new();
    push_dec4(&mut s, t.year as u16);
    s.append("-");
    push_dec2(&mut s, t.month);
    s.append("-");
    push_dec2(&mut s, t.day);
    s.append(" ");
    push_dec2(&mut s, t.hour);
    s.append(":");
    push_dec2(&mut s, t.minute);
    s.append(":");
    push_dec2(&mut s, t.second);
    proof {
        reveal_strlit("-");
        reveal_strlit(" ");
        reveal_strlit(":");
        assert(s@ =~= pretty_chars(*t));
    }
    s
}

/// Formats the export-metadata timestamp.
pub fn format_rfc3339(t: &UtcDateTime) -> (r: String)
    requires
        t.wf(),
        0 <= t.year <= 9999,
    ensures
        r@ == rfc3339_chars(*t),
{
    let mut s = String::new();
    push_dec4(&mut s, t.year as u16);
    s.append("-");
    push_dec2(&mut s, t.month);
    s.append("-");
    push_dec2(&mut s, t.day);
    s.append("T");
    push_dec2(&mut s, t.hour);
    s.append(":");
    push_dec2(&mut s, t.minute);
    s.append(":");
    push_dec2(&mut s, t.second);
    s.append("+00:00");
    proof {
        reveal_strlit("-");
        reveal_strlit("T");
        reveal_strlit(":");
        reveal_strlit("+00:00");
        assert(s@ =~= rfc3339_chars(*t));
    }
    s
}

/// Whether `s` is a well-formed stamp: fifteen characters, digits in the
/// date and time positions, an underscore between them, and fields in
/// calendar range.
pub open spec fn stamp_wf(s: Seq<char>) -> bool {
    &&& s.len() == 15
    &&& forall|i: int| 0 <= i < 15 && i != 8 ==> is_digit_char(#[trigger] s[i])
    &&& s[8] == '_'
    &&& 1 <= 10 * digit_val(s[4]) + digit_val(s[5]) <= 12
    &&& 1 <= 10 * digit_val(s[6]) + digit_val(s[7]) <= 31
    &&& 10 * digit_val(s[9]) + digit_val(s[10]) <= 23
    &&& 10 * digit_val(s[11]) + digit_val(s[12]) <= 59
    &&& 10 * digit_val(s[13]) + digit_val(s[14]) <= 59
}

/// The digit value of a digit character, in executable form.
fn digit_of(c: char) -> (r: Option<u8>)
    ensures
        r is Some <==> is_digit_char(c),
        r is Some ==> r->Some_0 == digit_val(c) && r->Some_0 <= 9,
{
    match c {
        '0' => Some(0),
        '1' => Some(1),
        '2' => Some(2),
        '3' => Some(3),
        '4' => Some(4),
        '5' => Some(5),
        '6' => Some(6),
        '7' => Some(7),
        '8' => Some(8),
        '9' => Some(9),
        _ => None,
    }
}

/// A digit character is recovered from its value.
proof fn lemma_digit_round_trip(c: char)
    requires
        is_digit_char(c),
    ensures
        digit_char(digit_val(c)) == c,
        0 <= digit_val(c) <= 9,
{
}

/// The calendar reading a well-formed stamp denotes.
pub open spec fn stamp_to_datetime(s: Seq<char>) -> UtcDateTime {
    UtcDateTime {
        year: (1000 * digit_val(s[0]) + 100 * digit_val(s[1]) + 10 * digit_val(s[2]) + digit_val(
            s[3],
        )) as i32,
        month: (10 * digit_val(s[4]) + digit_val(s[5])) as u8,
        day: (10 * digit_val(s[6]) + digit_val(s[7])) as u8,
        hour: (10 * digit_val(s[9]) + digit_val(s[10])) as u8,
        minute: (10 * digit_val(s[11]) + digit_val(s[12])) as u8,
        second: (10 * digit_val(s[13]) + digit_val(s[14])) as u8,
    }
}

/// Parses a stamp back into the calendar reading it was formatted from.
///
/// Succeeds exactly on well-formed stamps, and on success the reading
/// formats back to the given characters.
pub fn parse_stamp(s: &str) -> (r: Option<UtcDateTime>)
    ensures
        r is Some <==> stamp_wf(s@),
        r is Some ==> {
            &&& r->Some_0.wf()
            &&& 0 <= r->Some_0.year <= 9999
            &&& stamp_chars(r->Some_0) == s@
            &&& r->Some_0 == stamp_to_datetime(s@)
        },
{
    if s.unicode_len() != 15 {
        return None;
    }
    if s.get_char(8) != '_' {
        return None;
    }
    let d0 = match digit_of(s.get_char(0)) {
        Some(d) => d,
        None => {
            return None;
        },
    };
    let d1 = match digit_of(s.get_char(1)) {
        Some(d) => d,
        None => {
            return None;
        },
    };
    let d2 = match digit_of(s.get_char(2)) {
        Some(d) => d,
        None => {
            return None;
        },
    };
    let d3 = match digit_of(s.get_char(3)) {
        Some(d) => d,
        None => {
            return None;
        },
    };
    let d4 = match digit_of(s.get_char(4)) {
        Some(d) => d,
        None => {
            return None;
        },
    };
    let d5 = match digit_of(s.get_char(5)) {
        Some(d) => d,
        None => {
            return None;
        },
    };
    let d6 = match digit_of(s.get_char(6)) {
        Some(d) => d,
        None => {
            return None;
        },
    };
    let d7 = match digit_of(s.get_char(7)) {
        Some(d) => d,
        None => {
            return None;
        },
    };
    let d9 = match digit_of(s.get_char(9)) {
        Some(d) => d,
        None => {
            return None;
        },
    };
    let d10 = match digit_of(s.get_char(10)) {
        Some(d) => d,
        None => {
            return None;
        },
    };
    let d11 = match digit_of(s.get_char(11)) {
        Some(d) => d,
        None => {
            return None;
        },
    };
    let d12 = match digit_of(s.get_char(12)) {
        Some(d) => d,
        None => {
            return None;
        },
    };
    let d13 = match digit_of(s.get_char(13)) {
        Some(d) => d,
        None => {
            return None;
        },
    };
    let d14 = match digit_of(s.get_char(14)) {
        Some(d) => d,
        None => {
            return None;
        },
    };
    let year: u16 = 1000 * (d0 as u16) + 100 * (d1 as u16) + 10 * (d2 as u16) + (d3 as u16);
    let month: u8 = 10 * d4 + d5;
    let day: u8 = 10 * d6 + d7;
    let hour: u8 = 10 * d9 + d10;
    let minute: u8 = 10 * d11 + d12;
    let second: u8 = 10 * d13 + d14;
    if month < 1 || month > 12 || day < 1 || day > 31 || hour > 23 || minute > 59 || second > 59 {
        return None;
    }
    let t = UtcDateTime {
        year: year as i32,
        month,
        day,
        hour,
        minute,
        second,
    };
    proof {
        lemma_stamp_reassemble(s@, t);
    }
    Some(t)
}

/// A reading assembled from the digit values of a well-formed stamp
/// formats back to that stamp.
proof fn lemma_stamp_reassemble(s: Seq<char>, t: UtcDateTime)
    requires
        s.len() == 15,
        forall|i: int| (0 <= i < 15 && i != 8) ==> is_digit_char(#[trigger] s[i]),
        s[8] == '_',
        t.year == 1000 * digit_val(s[0]) + 100 * digit_val(s[1]) + 10 * digit_val(s[2]) + digit_val(
            s[3],
        ),
        t.month == 10 * digit_val(s[4]) + digit_val(s[5]),
        t.day == 10 * digit_val(s[6]) + digit_val(s[7]),
        t.hour == 10 * digit_val(s[9]) + digit_val(s[10]),
        t.minute == 10 * digit_val(s[11]) + digit_val(s[12]),
        t.second == 10 * digit_val(s[13]) + digit_val(s[14]),
    ensures
        stamp_chars(t) == s,
{
    assert forall|i: int| 0 <= i < 15 && i != 8 implies digit_char(digit_val(s[i])) == s[i] && 0
        <= digit_val(s[i]) <= 9 by {
        lemma_digit_round_trip(s[i]);
    }
    lemma_dec4_digits(digit_val(s[0]), digit_val(s[1]), digit_val(s[2]), digit_val(s[3]));
    lemma_dec2_digits(digit_val(s[4]), digit_val(s[5]));
    lemma_dec2_digits(digit_val(s[6]), digit_val(s[7]));
    lemma_dec2_digits(digit_val(s[9]), digit_val(s[10]));
    lemma_dec2_digits(digit_val(s[11]), digit_val(s[12]));
    lemma_dec2_digits(digit_val(s[13]), digit_val(s[14]));
    assert(stamp_chars(t) =~= s);
}

/// Splitting off the quotient and remainder of a sum built from them.
proof fn lemma_split_div(q: int, r: int, d: int)
    requires
        0 < d,
        0 <= r < d,
    ensures
        (d * q + r) / d == q,
        (d * q + r) % d == r,
{
    vstd::arithmetic::div_mod::lemma_div_multiples_vanish_fancy(q, r, d);
    vstd::arithmetic::div_mod::lemma_fundamental_div_mod(d * q + r, d);
}

/// The two-digit form of a two-digit number is its digits.
proof fn lemma_dec2_digits(a: int, b: int)
    requires
        0 <= a <= 9,
        0 <= b <= 9,
    ensures
        dec2(10 * a + b) == seq![digit_char(a), digit_char(b)],
{
    lemma_split_div(a, b, 10);
    assert(dec2(10 * a + b) =~= seq![digit_char(a), digit_char(b)]);
}

/// The four-digit form of a four-digit number is its digits.
proof fn lemma_dec4_digits(a: int, b: int, c: int, d: int)
    requires
        0 <= a <= 9,
        0 <= b <= 9,
        0 <= c <= 9,
        0 <= d <= 9,
    ensures
        dec4(1000 * a + 100 * b + 10 * c + d) == seq![
            digit_char(a),
            digit_char(b),
            digit_char(c),
            digit_char(d),
        ],
{
    let n = 1000 * a + 100 * b + 10 * c + d;
    assert(n / 1000 == a) by {
        lemma_split_div(a, 100 * b + 10 * c + d, 1000);
    }
    assert((n / 100) % 10 == b) by {
        lemma_split_div(10 * a + b, 10 * c + d, 100);
        lemma_split_div(a, b, 10);
    }
    assert((n / 10) % 10 == c) by {
        lemma_split_div(100 * a + 10 * b + c, d, 10);
        lemma_split_div(10 * a + b, c, 10);
        assert(100 * a + 10 * b + c == 10 * (10 * a + b) + c);
    }
    assert(n % 10 == d) by {
        lemma_split_div(100 * a + 10 * b + c, d, 10);
    }
    assert(dec4(n) =~= seq![digit_char(a), digit_char(b), digit_char(c), digit_char(d)]);
}

/// The stamp of a well-formed reading is itself well-formed and
/// denotes that reading.
pub proof fn lemma_stamp_chars_wf(t: UtcDateTime)
    requires
        t.wf(),
        0 <= t.year <= 9999,
    ensures
        stamp_wf(stamp_chars(t)),
        stamp_to_datetime(stamp_chars(t)) == t,
{
    let s = stamp_chars(t);
    let y = t.year as int;
    let a = y / 1000;
    let b = (y / 100) % 10;
    let c = (y / 10) % 10;
    let d = y % 10;
    assert(y == 1000 * a + 100 * b + 10 * c + d && 0 <= a <= 9 && 0 <= b <= 9 && 0 <= c <= 9 && 0
        <= d <= 9) by {
        lemma_year_digits(y);
    }
    lemma_split_div(t.month as int / 10, t.month as int % 10, 10);
    lemma_split_div(t.day as int / 10, t.day as int % 10, 10);
    lemma_split_div(t.hour as int / 10, t.hour as int % 10, 10);
    lemma_split_div(t.minute as int / 10, t.minute as int % 10, 10);
    lemma_split_div(t.second as int / 10, t.second as int % 10, 10);
    assert(s.len() == 15);
    assert forall|i: int| 0 <= i < 15 && i != 8 implies is_digit_char(#[trigger] s[i]) by {
        assert(s[8] == '_');
    }
    assert(s[8] == '_');
    assert(digit_val(s[4]) == t.month as int / 10 && digit_val(s[5]) == t.month as int % 10);
    assert(digit_val(s[6]) == t.day as int / 10 && digit_val(s[7]) == t.day as int % 10);
    assert(digit_val(s[9]) == t.hour as int / 10 && digit_val(s[10]) == t.hour as int % 10);
    assert(digit_val(s[11]) == t.minute as int / 10 && digit_val(s[12]) == t.minute as int % 10);
    assert(digit_val(s[13]) == t.second as int / 10 && digit_val(s[14]) == t.second as int % 10);
    assert(10 * (t.month as int / 10) + t.month as int % 10 == t.month as int);
    assert(stamp_to_datetime(s) == t) by {
        assert(digit_val(s[0]) == a && digit_val(s[1]) == b && digit_val(s[2]) == c && digit_val(
            s[3],
        ) == d);
    }
}

/// A four-digit year splits into its decimal digits.
proof fn lemma_year_digits(y: int)
    requires
        0 <= y <= 9999,
    ensures
        y == 1000 * (y / 1000) + 100 * ((y / 100) % 10) + 10 * ((y / 10) % 10) + y % 10,
        0 <= y / 1000 <= 9,
        0 <= (y / 100) % 10 <= 9,
        0 <= (y / 10) % 10 <= 9,
        0 <= y % 10 <= 9,
{
    let a = y / 1000;
    let r1 = y % 1000;
    vstd::arithmetic::div_mod::lemma_fundamental_div_mod(y, 1000);
    vstd::arithmetic::div_mod::lemma_mod_division_less_than_divisor(y, 1000);
    vstd::arithmetic::div_mod::lemma_div_pos_is_pos(y, 1000);
    vstd::arithmetic::div_mod::lemma_div_is_ordered(y, 9999, 1000);
    let b = r1 / 100;
    let r2 = r1 % 100;
    vstd::arithmetic::div_mod::lemma_fundamental_div_mod(r1, 100);
    vstd::arithmetic::div_mod::lemma_mod_division_less_than_divisor(r1, 100);
    vstd::arithmetic::div_mod::lemma_div_pos_is_pos(r1, 100);
    vstd::arithmetic::div_mod::lemma_div_is_ordered(r1, 999, 100);
    let c = r2 / 10;
    let d = r2 % 10;
    vstd::arithmetic::div_mod::lemma_fundamental_div_mod(r2, 10);
    vstd::arithmetic::div_mod::lemma_mod_division_less_than_divisor(r2, 10);
    vstd::arithmetic::div_mod::lemma_div_pos_is_pos(r2, 10);
    vstd::arithmetic::div_mod::lemma_div_is_ordered(r2, 99, 10);
    assert(y == 1000 * a + 100 * b + 10 * c + d);
    lemma_split_div(10 * a + b, 10 * c + d, 100);
    lemma_split_div(a, b, 10);
    lemma_split_div(100 * a + 10 * b + c, d, 10);
    assert(100 * a + 10 * b + c == 10 * (10 * a + b) + c);
    lemma_split_div(10 * a + b, c, 10);
    lemma_split_div(a, 100 * b + 10 * c + d, 1000);
}

/// Chronological order on calendar readings: by year, then month, day,
/// hour, minute, second.
pub open spec fn chron_lt(a: UtcDateTime, b: UtcDateTime) -> bool {
    if a.year != b.year {
        a.year < b.year
    } else if a.month != b.month {
        a.month < b.month
    } else if a.day != b.day {
        a.day < b.day
    } else if a.hour != b.hour {
        a.hour < b.hour
    } else if a.minute != b.minute {
        a.minute < b.minute
    } else {
        a.second < b.second
    }
}

/// Digit characters order as their values do.
proof fn lemma_digit_char_lt(d1: int, d2: int)
    requires
        0 <= d1 < d2 <= 9,
    ensures
        (digit_char(d1) as u32) < (digit_char(d2) as u32),
        digit_char(d1) != digit_char(d2),
{
}

/// Two-digit forms order as their values do.
proof fn lemma_dec2_lt(n1: int, n2: int)
    requires
        0 <= n1 < n2 <= 99,
    ensures
        crate::text::lex_lt(dec2(n1), dec2(n2)),
{
    vstd::arithmetic::div_mod::lemma_fundamental_div_mod(n1, 10);
    vstd::arithmetic::div_mod::lemma_fundamental_div_mod(n2, 10);
    vstd::arithmetic::div_mod::lemma_mod_division_less_than_divisor(n1, 10);
    vstd::arithmetic::div_mod::lemma_mod_division_less_than_divisor(n2, 10);
    vstd::arithmetic::div_mod::lemma_div_pos_is_pos(n1, 10);
    vstd::arithmetic::div_mod::lemma_div_pos_is_pos(n2, 10);
    vstd::arithmetic::div_mod::lemma_div_is_ordered(n1, 99, 10);
    vstd::arithmetic::div_mod::lemma_div_is_ordered(n2, 99, 10);
    vstd::arithmetic::div_mod::lemma_div_is_ordered(n1, n2, 10);
    let h1 = n1 / 10;
    let h2 = n2 / 10;
    assert(dec2(n1)[0] == digit_char(h1));
    assert(dec2(n2)[0] == digit_char(h2));
    if h1 < h2 {
        lemma_digit_char_lt(h1, h2);
        assert(crate::text::lex_lt(dec2(n1), dec2(n2)));
    } else {
        assert(h1 == h2);
        assert(n1 % 10 < n2 % 10);
        lemma_digit_char_lt(n1 % 10, n2 % 10);
        assert(dec2(n1).skip(1) =~= seq![digit_char(n1 % 10)]);
        assert(dec2(n2).skip(1) =~= seq![digit_char(n2 % 10)]);
        assert(crate::text::lex_lt(dec2(n1).skip(1), dec2(n2).skip(1)));
    }
}

/// A four-digit form is its upper two digits before its lower two.
proof fn lemma_dec4_split(n: int)
    requires
        0 <= n <= 9999,
    ensures
        dec4(n) == dec2(n / 100) + dec2(n % 100),
        0 <= n / 100 <= 99,
        0 <= n % 100 <= 99,
{
    vstd::arithmetic::div_mod::lemma_fundamental_div_mod(n, 100);
    vstd::arithmetic::div_mod::lemma_mod_division_less_than_divisor(n, 100);
    vstd::arithmetic::div_mod::lemma_div_pos_is_pos(n, 100);
    vstd::arithmetic::div_mod::lemma_div_is_ordered(n, 9999, 100);
    let h = n / 100;
    let l = n % 100;
    lemma_year_digits(n);
    assert(n / 1000 == h / 10) by {
        lemma_split_div(h / 10, h % 10, 10);
        vstd::arithmetic::div_mod::lemma_fundamental_div_mod(h, 10);
        vstd::arithmetic::div_mod::lemma_mod_division_less_than_divisor(h, 10);
        lemma_split_div(h / 10, 100 * (h % 10) + l, 1000);
        assert(n == 1000 * (h / 10) + (100 * (h % 10) + l));
    }
    assert((n / 100) % 10 == h % 10) by {
        vstd::arithmetic::div_mod::lemma_fundamental_div_mod(h, 10);
    }
    assert((n / 10) % 10 == l / 10) by {
        vstd::arithmetic::div_mod::lemma_fundamental_div_mod(l, 10);
        vstd::arithmetic::div_mod::lemma_mod_division_less_than_divisor(l, 10);
        lemma_split_div(10 * h + l / 10, l % 10, 10);
        assert(n == 10 * (10 * h + l / 10) + l % 10);
        lemma_split_div(h, l / 10, 10);
    }
    assert(n % 10 == l % 10) by {
        vstd::arithmetic::div_mod::lemma_fundamental_div_mod(l, 10);
        vstd::arithmetic::div_mod::lemma_mod_division_less_than_divisor(l, 10);
        lemma_split_div(10 * h + l / 10, l % 10, 10);
        assert(n == 10 * (10 * h + l / 10) + l % 10);
    }
    assert(dec4(n) =~= dec2(n / 100) + dec2(n % 100));
}

/// Four-digit forms order as their values do.
proof fn lemma_dec4_lt(n1: int, n2: int)
    requires
        0 <= n1 < n2 <= 9999,
    ensures
        crate::text::lex_lt(dec4(n1), dec4(n2)),
{
    lemma_dec4_split(n1);
    lemma_dec4_split(n2);
    vstd::arithmetic::div_mod::lemma_div_is_ordered(n1, n2, 100);
    vstd::arithmetic::div_mod::lemma_fundamental_div_mod(n1, 100);
    vstd::arithmetic::div_mod::lemma_fundamental_div_mod(n2, 100);
    if n1 / 100 < n2 / 100 {
        lemma_dec2_lt(n1 / 100, n2 / 100);
        crate::text::lemma_lex_concat_lt(dec2(n1 / 100), dec2(n2 / 100), dec2(n1 % 100), dec2(
            n2 % 100,
        ));
    } else {
        assert(n1 / 100 == n2 / 100);
        assert(n1 % 100 < n2 % 100);
        lemma_dec2_lt(n1 % 100, n2 % 100);
        crate::text::lemma_lex_same_prefix(dec2(n1 / 100), dec2(n1 % 100), dec2(n2 % 100));
    }
}

/// Stamps order chronologically: an earlier reading formats to a
/// lexicographically smaller stamp.
pub proof fn lemma_stamp_monotone(t1: UtcDateTime, t2: UtcDateTime)
    requires
        t1.wf(),
        t2.wf(),
        0 <= t1.year <= 9999,
        0 <= t2.year <= 9999,
        chron_lt(t1, t2),
    ensures
        crate::text::lex_lt(stamp_chars(t1), stamp_chars(t2)),
        stamp_chars(t1).len() == 15,
        stamp_chars(t2).len() == 15,
{
    let date1 = dec4(t1.year as int) + dec2(t1.month as int) + dec2(t1.day as int);
    let date2 = dec4(t2.year as int) + dec2(t2.month as int) + dec2(t2.day as int);
    let time1 = dec2(t1.hour as int) + dec2(t1.minute as int) + dec2(t1.second as int);
    let time2 = dec2(t2.hour as int) + dec2(t2.minute as int) + dec2(t2.second as int);
    assert(stamp_chars(t1) =~= date1 + (seq!['_'] + time1));
    assert(stamp_chars(t2) =~= date2 + (seq!['_'] + time2));
    if t1.year != t2.year {
        lemma_dec4_lt(t1.year as int, t2.year as int);
        crate::text::lemma_lex_concat_lt(
            dec4(t1.year as int),
            dec4(t2.year as int),
            dec2(t1.month as int) + dec2(t1.day as int) + (seq!['_'] + time1),
            dec2(t2.month as int) + dec2(t2.day as int) + (seq!['_'] + time2),
        );
        assert(stamp_chars(t1) =~= dec4(t1.year as int) + (dec2(t1.month as int) + dec2(
            t1.day as int,
        ) + (seq!['_'] + time1)));
        assert(stamp_chars(t2) =~= dec4(t2.year as int) + (dec2(t2.month as int) + dec2(
            t2.day as int,
        ) + (seq!['_'] + time2)));
    } else if t1.month != t2.month {
        lemma_dec2_lt(t1.month as int, t2.month as int);
        crate::text::lemma_lex_concat_lt(
            dec2(t1.month as int),
            dec2(t2.month as int),
            dec2(t1.day as int) + (seq!['_'] + time1),
            dec2(t2.day as int) + (seq!['_'] + time2),
        );
        crate::text::lemma_lex_same_prefix(
            dec4(t1.year as int),
            dec2(t1.month as int) + (dec2(t1.day as int) + (seq!['_'] + time1)),
            dec2(t2.month as int) + (dec2(t2.day as int) + (seq!['_'] + time2)),
        );
        assert(dec2(t1.month as int) + (dec2(t1.day as int) + (seq!['_'] + time1)) =~= dec2(
            t1.month as int,
        ) + dec2(t1.day as int) + (seq!['_'] + time1));
        assert(dec2(t2.month as int) + (dec2(t2.day as int) + (seq!['_'] + time2)) =~= dec2(
            t2.month as int,
        ) + dec2(t2.day as int) + (seq!['_'] + time2));
        assert(stamp_chars(t1) =~= dec4(t1.year as int) + (dec2(t1.month as int) + (dec2(
            t1.day as int,
        ) + (seq!['_'] + time1))));
        assert(stamp_chars(t2) =~= dec4(t2.year as int) + (dec2(t2.month as int) + (dec2(
            t2.day as int,
        ) + (seq!['_'] + time2))));
    } else if t1.day != t2.day {
        lemma_dec2_lt(t1.day as int, t2.day as int);
        crate::text::lemma_lex_concat_lt(
            dec2(t1.day as int),
            dec2(t2.day as int),
            seq!['_'] + time1,
            seq!['_'] + time2,
        );
        crate::text::lemma_lex_same_prefix(
            dec4(t1.year as int) + dec2(t1.month as int),
            dec2(t1.day as int) + (seq!['_'] + time1),
            dec2(t2.day as int) + (seq!['_'] + time2),
        );
        assert(stamp_chars(t1) =~= dec4(t1.year as int) + dec2(t1.month as int) + (dec2(
            t1.day as int,
        ) + (seq!['_'] + time1)));
        assert(stamp_chars(t2) =~= dec4(t2.year as int) + dec2(t2.month as int) + (dec2(
            t2.day as int,
        ) + (seq!['_'] + time2)));
    } else {
        let p = dec4(t1.year as int) + dec2(t1.month as int) + dec2(t1.day as int) + seq!['_'];
        assert(stamp_chars(t1) =~= p + time1);
        assert(stamp_chars(t2) =~= p + time2);
        if t1.hour != t2.hour {
            lemma_dec2_lt(t1.hour as int, t2.hour as int);
            crate::text::lemma_lex_concat_lt(
                dec2(t1.hour as int),
                dec2(t2.hour as int),
                dec2(t1.minute as int) + dec2(t1.second as int),
                dec2(t2.minute as int) + dec2(t2.second as int),
            );
            assert(time1 =~= dec2(t1.hour as int) + (dec2(t1.minute as int) + dec2(
                t1.second as int,
            )));
            assert(time2 =~= dec2(t2.hour as int) + (dec2(t2.minute as int) + dec2(
                t2.second as int,
            )));
        } else if t1.minute != t2.minute {
            lemma_dec2_lt(t1.minute as int, t2.minute as int);
            crate::text::lemma_lex_concat_lt(
                dec2(t1.minute as int),
                dec2(t2.minute as int),
                dec2(t1.second as int),
                dec2(t2.second as int),
            );
            crate::text::lemma_lex_same_prefix(
                dec2(t1.hour as int),
                dec2(t1.minute as int) + dec2(t1.second as int),
                dec2(t2.minute as int) + dec2(t2.second as int),
            );
            assert(time1 =~= dec2(t1.hour as int) + (dec2(t1.minute as int) + dec2(
                t1.second as int,
            )));
            assert(time2 =~= dec2(t2.hour as int) + (dec2(t2.minute as int) + dec2(
                t2.second as int,
            )));
        } else {
            lemma_dec2_lt(t1.second as int, t2.second as int);
            crate::text::lemma_lex_same_prefix(
                dec2(t1.hour as int) + dec2(t1.minute as int),
                dec2(t1.second as int),
                dec2(t2.second as int),
            );
            assert(time1 =~= dec2(t1.hour as int) + dec2(t1.minute as int) + dec2(
                t1.second as int,
            ));
        }
        crate::text::lemma_lex_same_prefix(p, time1, time2);
    }
}

/// A well-formed stamp denotes a well-formed reading with a four-digit
/// year, and that reading formats back to the stamp.
pub proof fn lemma_stamp_wf_props(s: Seq<char>)
    requires
        stamp_wf(s),
    ensures
        stamp_to_datetime(s).wf(),
        0 <= stamp_to_datetime(s).year <= 9999,
        stamp_chars(stamp_to_datetime(s)) == s,
{
    let t = stamp_to_datetime(s);
    assert forall|i: int| 0 <= i < 15 && i != 8 implies 0 <= digit_val(#[trigger] s[i]) <= 9 by {
        lemma_digit_round_trip(s[i]);
    }
    assert(0 <= t.year <= 9999);
    assert(t.wf());
    lemma_stamp_reassemble(s, t);
}

} // verus!
