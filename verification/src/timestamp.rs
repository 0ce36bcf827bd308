use vstd::prelude::*;

use vstd::arithmetic::div_mod::{
    lemma_breakdown, lemma_div_denominator, lemma_div_is_ordered,
    lemma_div_is_ordered_by_denominator, lemma_div_nonincreasing, lemma_fundamental_div_mod,
    lemma_fundamental_div_mod_converse_div, lemma_fundamental_div_mod_converse_mod,
};

use crate::errors::TimestampFormatError;
use crate::numfmt::digit_char;

verus! {

// ---------------------------------------------------------------------------
// The proleptic Gregorian calendar, counted from 0000-01-01.
// ---------------------------------------------------------------------------
/// Day number of 1970-01-01, counted from 0000-01-01.
pub const EPOCH_DAY_NUMBER: i64 = 719528;

/// First instant with a civil form here: 0000-01-01T00:00:00 UTC.
pub const MIN_CIVIL_EPOCH: i64 = -719528 * 86400;

/// Last instant with a civil form here: 9999-12-31T23:59:59 UTC.
pub const MAX_CIVIL_EPOCH: i64 = (3652425 - 719528) * 86400 - 1;

pub open spec fn is_leap_year(y: int) -> bool {
    y % 4 == 0 && (y % 100 != 0 || y % 400 == 0)
}

pub open spec fn year_length(y: int) -> int {
    if is_leap_year(y) {
        366
    } else {
        365
    }
}

pub open spec fn days_in_month(y: int, m: int) -> int {
    if m == 2 {
        if is_leap_year(y) {
            29
        } else {
            28
        }
    } else if m == 4 || m == 6 || m == 9 || m == 11 {
        30
    } else {
        31
    }
}

/// Days in the months of year `y` that precede month `m`.
pub open spec fn days_before_month(y: int, m: int) -> int {
    let base = if m == 1 {
        0int
    } else if m == 2 {
        31
    } else if m == 3 {
        59
    } else if m == 4 {
        90
    } else if m == 5 {
        120
    } else if m == 6 {
        151
    } else if m == 7 {
        181
    } else if m == 8 {
        212
    } else if m == 9 {
        243
    } else if m == 10 {
        273
    } else if m == 11 {
        304
    } else {
        334
    };
    base + if m > 2 && is_leap_year(y) {
        1int
    } else {
        0int
    }
}

/// Leap years in `[0, y)`; year 0 is a leap year.
pub open spec fn leap_years_before(y: int) -> int {
    if y <= 0 {
        0
    } else {
        (y - 1) / 4 - (y - 1) / 100 + (y - 1) / 400 + 1
    }
}

/// Days in the years `[0, y)`.
pub open spec fn days_before_year(y: int) -> int {
    365 * y + leap_years_before(y)
}

/// Day number of y-m-d, counted from 0000-01-01.
pub open spec fn day_number(y: int, m: int, d: int) -> int {
    days_before_year(y) + days_before_month(y, m) + (d - 1)
}

/// One civil date and time of day, read as UTC.
#[derive(Debug, Clone, Copy, PartialEq, Eq, Structural)]
pub struct Civil {
    pub year: i64,
    pub month: i64,
    pub day: i64,
    pub hour: i64,
    pub minute: i64,
    pub second: i64,
}

pub open spec fn valid_civil(c: Civil) -> bool {
    &&& 0 <= c.year <= 9999
    &&& 1 <= c.month <= 12
    &&& 1 <= c.day <= days_in_month(c.year as int, c.month as int)
    &&& 0 <= c.hour <= 23
    &&& 0 <= c.minute <= 59
    &&& 0 <= c.second <= 59
}

/// Seconds since the Unix epoch of the civil UTC time `c`.
pub open spec fn epoch_of_civil(c: Civil) -> int {
    (day_number(c.year as int, c.month as int, c.day as int) - EPOCH_DAY_NUMBER) * 86400
        + c.hour * 3600 + c.minute * 60 + c.second
}

// ---------------------------------------------------------------------------
// Calendar lemmas.
// ---------------------------------------------------------------------------
/// Stepping the dividend by one raises the quotient exactly on multiples.
proof fn lemma_div_step(a: int, d: int)
    requires
        1 <= a,
        1 <= d,
    ensures
        a / d - (a - 1) / d == if a % d == 0 {
            1int
        } else {
            0int
        },
{
    let q = (a - 1) / d;
    let r = (a - 1) % d;
    lemma_fundamental_div_mod(a - 1, d);
    assert((q + 1) * d == q * d + d) by (nonlinear_arith);
    assert(d * q == q * d) by (nonlinear_arith);
    if r + 1 == d {
        assert(a == (q + 1) * d + 0);
        lemma_fundamental_div_mod_converse_div(a, d, q + 1, 0);
        lemma_fundamental_div_mod_converse_mod(a, d, q + 1, 0);
    } else {
        assert(a == q * d + (r + 1));
        lemma_fundamental_div_mod_converse_div(a, d, q, r + 1);
        lemma_fundamental_div_mod_converse_mod(a, d, q, r + 1);
    }
}

/// Divisibility by 400 implies divisibility by 100, and that by 4.
proof fn lemma_leap_divisibility(y: int)
    requires
        0 <= y,
    ensures
        y % 400 == 0 ==> y % 100 == 0,
        y % 100 == 0 ==> y % 4 == 0,
{
    lemma_breakdown(y, 100, 4);
    lemma_breakdown(y, 4, 25);
}

/// One year of days separates successive year starts.
proof fn lemma_days_before_year_step(y: int)
    requires
        0 <= y,
    ensures
        days_before_year(y + 1) == days_before_year(y) + year_length(y),
{
    if y == 0 {
    } else {
        lemma_div_step(y, 4);
        lemma_div_step(y, 100);
        lemma_div_step(y, 400);
        lemma_leap_divisibility(y);
    }
}

/// Later years start no earlier.
proof fn lemma_days_before_year_monotone(y1: int, y2: int)
    requires
        0 <= y1 <= y2,
    ensures
        days_before_year(y1) <= days_before_year(y2),
    decreases y2 - y1,
{
    if y1 < y2 {
        lemma_days_before_year_step(y1);
        lemma_days_before_year_monotone(y1 + 1, y2);
    }
}

// ---------------------------------------------------------------------------
// The compact `YYYYMMDDThhmmssZ` form.
// ---------------------------------------------------------------------------
pub open spec fn is_digit_char(ch: char) -> bool {
    48 <= ch as int <= 57
}

pub open spec fn digit_val(ch: char) -> int {
    ch as int - 48
}

pub open spec fn two_digit_value(s: Seq<char>, i: int) -> int {
    10 * digit_val(s[i]) + digit_val(s[i + 1])
}

pub open spec fn four_digit_value(s: Seq<char>, i: int) -> int {
    100 * two_digit_value(s, i) + two_digit_value(s, i + 2)
}

/// The fixed shape: at least the 16 positions `YYYYMMDDThhmmssZ`, digits in
/// the numeric slots and the two literals in theirs.
pub open spec fn compact_shape_ok(s: Seq<char>) -> bool {
    &&& s.len() >= 16
    &&& s[8] == 'T'
    &&& s[15] == 'Z'
    &&& forall|i: int| (0 <= i < 8 || 9 <= i < 15) ==> is_digit_char(#[trigger] s[i])
}

/// The civil fields spelled at the fixed positions.
pub open spec fn civil_of_compact(s: Seq<char>) -> Civil {
    Civil {
        year: four_digit_value(s, 0) as i64,
        month: two_digit_value(s, 4) as i64,
        day: two_digit_value(s, 6) as i64,
        hour: two_digit_value(s, 9) as i64,
        minute: two_digit_value(s, 11) as i64,
        second: two_digit_value(s, 13) as i64,
    }
}

/// The instant a compact timestamp denotes: its epoch seconds, provided the
/// shape holds and the fields name a real calendar date and time of day.
pub open spec fn parse_compact(s: Seq<char>) -> Option<int> {
    if compact_shape_ok(s) && valid_civil(civil_of_compact(s)) {
        Some(epoch_of_civil(civil_of_compact(s)))
    } else {
        None
    }
}

// ---------------------------------------------------------------------------
// Executable parsing.
// ---------------------------------------------------------------------------
fn read_digit(s: &str, i: usize) -> (r: Option<u64>)
    requires
        i < s@.len(),
    ensures
        match r {
            Some(v) => is_digit_char(s@[i as int]) && v == digit_val(s@[i as int]),
            None => !is_digit_char(s@[i as int]),
        },
{
    let c = s.get_char(i);
    let v = c as u32;
    if 48 <= v && v <= 57 {
        Some((v - 48) as u64)
    } else {
        None
    }
}

fn read_two(s: &str, i: usize) -> (r: Option<u64>)
    requires
        i < usize::MAX,
        i + 1 < s@.len(),
    ensures
        match r {
            Some(v) => is_digit_char(s@[i as int]) && is_digit_char(s@[i + 1]) && v
                == two_digit_value(s@, i as int) && v < 100,
            None => !(is_digit_char(s@[i as int]) && is_digit_char(s@[i + 1])),
        },
{
    let hi = read_digit(s, i);
    let lo = read_digit(s, i + 1);
    match (hi, lo) {
        (Some(h), Some(l)) => Some(10 * h + l),
        _ => None,
    }
}

fn days_in_month_exec(y: u64, m: u64) -> (r: u64)
    requires
        1 <= m <= 12,
    ensures
        r == days_in_month(y as int, m as int),
{
    if m == 2 {
        if y % 4 == 0 && (y % 100 != 0 || y % 400 == 0) {
            29
        } else {
            28
        }
    } else if m == 4 || m == 6 || m == 9 || m == 11 {
        30
    } else {
        31
    }
}

fn days_before_month_exec(y: u64, m: u64) -> (r: u64)
    requires
        1 <= m <= 12,
    ensures
        r == days_before_month(y as int, m as int),
{
    let base: u64 = if m == 1 {
        0
    } else if m == 2 {
        31
    } else if m == 3 {
        59
    } else if m == 4 {
        90
    } else if m == 5 {
        120
    } else if m == 6 {
        151
    } else if m == 7 {
        181
    } else if m == 8 {
        212
    } else if m == 9 {
        243
    } else if m == 10 {
        273
    } else if m == 11 {
        304
    } else {
        334
    };
    if m > 2 && y % 4 == 0 && (y % 100 != 0 || y % 400 == 0) {
        base + 1
    } else {
        base
    }
}

fn days_before_year_exec(y: u64) -> (r: u64)
    requires
        y <= 9999,
    ensures
        r == days_before_year(y as int),
{
    let leaps: u64 = if y == 0 {
        0
    } else {
        proof {
            lemma_div_is_ordered_by_denominator(y - 1, 4, 100);
            lemma_div_nonincreasing(y - 1, 4);
            lemma_div_nonincreasing(y - 1, 400);
        }
        (y - 1) / 4 - (y - 1) / 100 + (y - 1) / 400 + 1
    };
    365 * y + leaps
}

/// A valid civil date's day number lies within the ten-thousand-year window.
proof fn lemma_day_number_bound(c: Civil)
    requires
        valid_civil(c),
    ensures
        days_before_year(c.year as int) <= day_number(c.year as int, c.month as int, c.day as int),
        0 <= day_number(c.year as int, c.month as int, c.day as int) <= 3652424,
{
    let y = c.year as int;
    let m = c.month as int;
    let d = c.day as int;
    assert(days_before_month(y, m) + (d - 1) < year_length(y));
    assert(0 <= days_before_month(y, m) + (d - 1));
    lemma_days_before_year_monotone(0, y);
    lemma_days_before_year_step(y);
    lemma_days_before_year_monotone(y + 1, 10000);
    assert(days_before_year(10000) == 3652425);
}

/// The epoch seconds of a valid civil UTC time.
pub fn epoch_from_civil(c: Civil) -> (t: i64)
    requires
        valid_civil(c),
    ensures
        t == epoch_of_civil(c),
        MIN_CIVIL_EPOCH <= t <= MAX_CIVIL_EPOCH,
{
    proof {
        lemma_day_number_bound(c);
    }
    let dby = days_before_year_exec(c.year as u64);
    let dbm = days_before_month_exec(c.year as u64, c.month as u64);
    let dn: u64 = dby + dbm + (c.day as u64 - 1);
    let t: i64 = (dn as i64 - EPOCH_DAY_NUMBER) * 86400 + (c.hour * 3600 + c.minute * 60
        + c.second);
    t
}

/// Parse a compact `YYYYMMDDThhmmssZ` UTC timestamp to its epoch seconds.
/// Exactly the strings of that shape whose fields name a real date and
/// time of day parse; everything else is a `TimestampFormatError`.
pub fn parse_due_date(due: &str) -> (r: Result<i64, TimestampFormatError>)
    ensures
        match r {
            Ok(t) => parse_compact(due@) == Some(t as int) && MIN_CIVIL_EPOCH <= t
                <= MAX_CIVIL_EPOCH,
            Err(_) => parse_compact(due@) is None,
        },
{
    let n = due.unicode_len();
    if n < 16 {
        return Err(TimestampFormatError);
    }
    if due.get_char(8) != 'T' {
        return Err(TimestampFormatError);
    }
    if due.get_char(15) != 'Z' {
        return Err(TimestampFormatError);
    }
    let year = match read_two(due, 0) {
        Some(hi) => match read_two(due, 2) {
            Some(lo) => 100 * hi + lo,
            None => {
                return Err(TimestampFormatError);
            },
        },
        None => {
            return Err(TimestampFormatError);
        },
    };
    let month = match read_two(due, 4) {
        Some(v) => v,
        None => {
            return Err(TimestampFormatError);
        },
    };
    let day = match read_two(due, 6) {
        Some(v) => v,
        None => {
            return Err(TimestampFormatError);
        },
    };
    let hour = match read_two(due, 9) {
        Some(v) => v,
        None => {
            return Err(TimestampFormatError);
        },
    };
    let minute = match read_two(due, 11) {
        Some(v) => v,
        None => {
            return Err(TimestampFormatError);
        },
    };
    let second = match read_two(due, 13) {
        Some(v) => v,
        None => {
            return Err(TimestampFormatError);
        },
    };
    proof {
        assert(compact_shape_ok(due@));
    }
    if month < 1 || month > 12 {
        return Err(TimestampFormatError);
    }
    if day < 1 || day > days_in_month_exec(year, month) {
        return Err(TimestampFormatError);
    }
    if hour > 23 || minute > 59 || second > 59 {
        return Err(TimestampFormatError);
    }
    let c = Civil {
        year: year as i64,
        month: month as i64,
        day: day as i64,
        hour: hour as i64,
        minute: minute as i64,
        second: second as i64,
    };
    proof {
        assert(c == civil_of_compact(due@));
        assert(valid_civil(c));
    }
    Ok(epoch_from_civil(c))
}

// ---------------------------------------------------------------------------
// From an instant back to its civil form.
// ---------------------------------------------------------------------------
/// A month and the months before it never outrun the year.
proof fn lemma_days_before_month_step(y: int, m: int)
    requires
        1 <= m <= 12,
    ensures
        days_before_month(y, m) + days_in_month(y, m) == if m == 12 {
            year_length(y)
        } else {
            days_before_month(y, m + 1)
        },
{
}

/// Distinct months occupy disjoint day ranges of their year.
proof fn lemma_days_before_month_monotone(y: int, ma: int, mb: int)
    requires
        1 <= ma < mb <= 12,
    ensures
        days_before_month(y, ma) + days_in_month(y, ma) <= days_before_month(y, mb),
    decreases mb - ma,
{
    lemma_days_before_month_step(y, ma);
    if ma + 1 < mb {
        lemma_days_before_month_monotone(y, ma + 1, mb);
        assert(days_in_month(y, ma + 1) >= 0);
    }
}

/// A valid date's offset into its year stays below the year's length.
proof fn lemma_intra_year_bound(y: int, m: int, d: int)
    requires
        1 <= m <= 12,
        1 <= d <= days_in_month(y, m),
    ensures
        0 <= days_before_month(y, m) + (d - 1) < year_length(y),
{
    lemma_days_before_month_step(y, m);
    if m < 12 {
        lemma_days_before_month_monotone(y, m, 12);
        lemma_days_before_month_step(y, 12);
    }
}

/// Two valid dates with one day number are the same date.
#[verifier::rlimit(100)]
proof fn lemma_day_number_injective(y1: int, m1: int, d1: int, y2: int, m2: int, d2: int)
    requires
        0 <= y1 <= 9999,
        1 <= m1 <= 12,
        1 <= d1 <= days_in_month(y1, m1),
        0 <= y2 <= 9999,
        1 <= m2 <= 12,
        1 <= d2 <= days_in_month(y2, m2),
        day_number(y1, m1, d1) == day_number(y2, m2, d2),
    ensures
        y1 == y2,
        m1 == m2,
        d1 == d2,
{
    lemma_intra_year_bound(y1, m1, d1);
    lemma_intra_year_bound(y2, m2, d2);
    assert(y1 == y2) by {
        lemma_days_before_year_step(y1);
        lemma_days_before_year_step(y2);
        if y1 < y2 {
            lemma_days_before_year_monotone(y1 + 1, y2);
        }
        if y2 < y1 {
            lemma_days_before_year_monotone(y2 + 1, y1);
        }
    }
    assert(m1 == m2) by {
        if m1 < m2 {
            lemma_days_before_month_monotone(y1, m1, m2);
        }
        if m2 < m1 {
            lemma_days_before_month_monotone(y1, m2, m1);
        }
    }
}

/// Two valid civil times denoting the same instant are the same time:
/// within the ten-thousand-year window, `epoch_of_civil` is injective.
#[verifier::rlimit(100)]
pub proof fn lemma_epoch_of_civil_injective(c1: Civil, c2: Civil)
    requires
        valid_civil(c1),
        valid_civil(c2),
        epoch_of_civil(c1) == epoch_of_civil(c2),
    ensures
        c1 == c2,
{
    let dn1 = day_number(c1.year as int, c1.month as int, c1.day as int);
    let dn2 = day_number(c2.year as int, c2.month as int, c2.day as int);
    let tod1 = c1.hour * 3600 + c1.minute * 60 + c1.second;
    let tod2 = c2.hour * 3600 + c2.minute * 60 + c2.second;
    assert(0 <= tod1 < 86400 && 0 <= tod2 < 86400);
    assert(dn1 == dn2 && tod1 == tod2) by {
        assert((dn1 - EPOCH_DAY_NUMBER) * 86400 + tod1 == (dn2 - EPOCH_DAY_NUMBER) * 86400
            + tod2);
    }
    assert(c1.hour == c2.hour && c1.minute == c2.minute && c1.second == c2.second);
    lemma_day_number_injective(
        c1.year as int,
        c1.month as int,
        c1.day as int,
        c2.year as int,
        c2.month as int,
        c2.day as int,
    );
}

/// Absence-first order on optional instants: an absent instant precedes
/// every present one, and present instants compare as epoch seconds.
pub open spec fn due_before(a: Option<int>, b: Option<int>) -> bool {
    match (a, b) {
        (Option::None, Option::Some(_)) => true,
        (Option::Some(x), Option::Some(y)) => x < y,
        _ => false,
    }
}

/// The civil UTC time of an instant in the displayable window.
pub open spec fn civil_of_epoch(t: int) -> Civil {
    choose|c: Civil| valid_civil(c) && epoch_of_civil(c) == t
}

/// The civil UTC form of epoch second `t`.
pub fn civil_from_epoch(t: i64) -> (c: Civil)
    requires
        MIN_CIVIL_EPOCH <= t <= MAX_CIVIL_EPOCH,
    ensures
        valid_civil(c),
        epoch_of_civil(c) == t,
        c == civil_of_epoch(t as int),
{
    let total: u64 = (t - MIN_CIVIL_EPOCH) as u64;
    let days: u64 = total / 86400;
    let secs: u64 = total % 86400;
    let hour: u64 = secs / 3600;
    let rem: u64 = secs % 3600;
    let minute: u64 = rem / 60;
    let second: u64 = rem % 60;
    proof {
        lemma_fundamental_div_mod(total as int, 86400);
        lemma_fundamental_div_mod(secs as int, 3600);
        lemma_fundamental_div_mod(rem as int, 60);
        assert(days < 3652425);
        assert(hour < 24 && minute < 60 && second < 60);
    }
    let mut y: u64 = 0;
    let mut rd: u64 = days;
    loop
        invariant
            y <= 9999,
            days < 3652425,
            days == days_before_year(y as int) + rd,
        ensures
            y <= 9999,
            days == days_before_year(y as int) + rd,
            rd < year_length(y as int),
        decreases rd,
    {
        let yl: u64 = if y % 4 == 0 && (y % 100 != 0 || y % 400 == 0) {
            366
        } else {
            365
        };
        proof {
            assert(yl == year_length(y as int));
        }
        if rd < yl {
            break ;
        }
        proof {
            lemma_days_before_year_step(y as int);
            if y == 9999 {
                assert(days_before_year(10000) == 3652425);
                assert(false);
            }
        }
        rd = rd - yl;
        y = y + 1;
    }
    let mut m: u64 = 1;
    let mut rm: u64 = rd;
    loop
        invariant
            1 <= m <= 12,
            y <= 9999,
            rd < year_length(y as int),
            rd == days_before_month(y as int, m as int) + rm,
        ensures
            1 <= m <= 12,
            rd == days_before_month(y as int, m as int) + rm,
            rm < days_in_month(y as int, m as int),
        decreases 12 - m,
    {
        let dim = days_in_month_exec(y, m);
        if rm < dim {
            break ;
        }
        proof {
            if m == 12 {
                assert(days_before_month(y as int, 12) + days_in_month(y as int, 12)
                    == year_length(y as int));
                assert(false);
            }
            assert(days_before_month(y as int, m as int) + days_in_month(y as int, m as int)
                == days_before_month(y as int, m as int + 1));
        }
        rm = rm - dim;
        m = m + 1;
    }
    let day: u64 = rm + 1;
    let c = Civil {
        year: y as i64,
        month: m as i64,
        day: day as i64,
        hour: hour as i64,
        minute: minute as i64,
        second: second as i64,
    };
    proof {
        assert(valid_civil(c));
        assert(epoch_of_civil(c) == t);
        let cc = civil_of_epoch(t as int);
        assert(valid_civil(cc) && epoch_of_civil(cc) == t) by {
            assert(valid_civil(c) && epoch_of_civil(c) == t);
        }
        lemma_epoch_of_civil_injective(c, cc);
    }
    c
}

// ---------------------------------------------------------------------------
// Display: `%a, %y-%m-%d %H:%M`.
// ---------------------------------------------------------------------------
/// Weekday abbreviation for a day-number residue: day number 0, the first
/// of January of year 0, was a Saturday.
pub open spec fn weekday_name(w: int) -> Seq<char> {
    if w == 0 {
        seq!['S', 'a', 't']
    } else if w == 1 {
        seq!['S', 'u', 'n']
    } else if w == 2 {
        seq!['M', 'o', 'n']
    } else if w == 3 {
        seq!['T', 'u', 'e']
    } else if w == 4 {
        seq!['W', 'e', 'd']
    } else if w == 5 {
        seq!['T', 'h', 'u']
    } else {
        seq!['F', 'r', 'i']
    }
}

/// The display line of a civil time: weekday abbreviation, two-digit year,
/// month, day, then hour and minute, as `Www, yy-mm-dd HH:MM`.
pub open spec fn due_display_chars(c: Civil) -> Seq<char> {
    weekday_name(day_number(c.year as int, c.month as int, c.day as int) % 7) + seq![',', ' ']
        + crate::numfmt::two_digit_chars(c.year as int % 100) + seq!['-']
        + crate::numfmt::two_digit_chars(c.month as int) + seq!['-']
        + crate::numfmt::two_digit_chars(c.day as int) + seq![' ']
        + crate::numfmt::two_digit_chars(c.hour as int) + seq![':']
        + crate::numfmt::two_digit_chars(c.minute as int)
}

fn append_weekday(s: &mut String, w: u64)
    requires
        w < 7,
    ensures
        final(s)@ == old(s)@ + weekday_name(w as int),
{
    proof {
        reveal_strlit("Sat");
        reveal_strlit("Sun");
        reveal_strlit("Mon");
        reveal_strlit("Tue");
        reveal_strlit("Wed");
        reveal_strlit("Thu");
        reveal_strlit("Fri");
    }
    let name: &str = match w {
        0 => "Sat",
        1 => "Sun",
        2 => "Mon",
        3 => "Tue",
        4 => "Wed",
        5 => "Thu",
        _ => "Fri",
    };
    proof {
        assert(name@ =~= weekday_name(w as int));
    }
    s.append(name);
}

/// Render the instant `t`, shifted into a display time zone that is
/// `tz_offset_secs` ahead of UTC, as `Www, yy-mm-dd HH:MM`.  `None`
/// exactly when the shifted instant falls outside the civil window.
pub fn format_due(t: i64, tz_offset_secs: i64) -> (r: Option<String>)
    requires
        MIN_CIVIL_EPOCH <= t <= MAX_CIVIL_EPOCH,
        -172800 <= tz_offset_secs <= 172800,
    ensures
        r is Some <==> MIN_CIVIL_EPOCH <= t + tz_offset_secs <= MAX_CIVIL_EPOCH,
        r matches Some(line) ==> line@ == due_display_chars(civil_of_epoch(t + tz_offset_secs)),
{
    let shifted = t + tz_offset_secs;
    if shifted < MIN_CIVIL_EPOCH || shifted > MAX_CIVIL_EPOCH {
        return None;
    }
    let c = civil_from_epoch(shifted);
    proof {
        lemma_day_number_bound(c);
    }
    let dby = days_before_year_exec(c.year as u64);
    let dbm = days_before_month_exec(c.year as u64, c.month as u64);
    let dn: u64 = dby + dbm + (c.day as u64 - 1);
    let w: u64 = dn % 7;
    let mut line = String::new();
    append_weekday(&mut line, w);
    proof {
        reveal_strlit(", ");
        reveal_strlit("-");
        reveal_strlit(" ");
        reveal_strlit(":");
    }
    line.append(", ");
    crate::numfmt::append_two_digits(&mut line, (c.year as u64) % 100);
    line.append("-");
    crate::numfmt::append_two_digits(&mut line, c.month as u64);
    line.append("-");
    crate::numfmt::append_two_digits(&mut line, c.day as u64);
    line.append(" ");
    crate::numfmt::append_two_digits(&mut line, c.hour as u64);
    line.append(":");
    crate::numfmt::append_two_digits(&mut line, c.minute as u64);
    proof {
        assert((", ")@ =~= seq![',', ' ']);
        assert(("-")@ =~= seq!['-']);
        assert((" ")@ =~= seq![' ']);
        assert((":")@ =~= seq![':']);
        assert(line@ =~= due_display_chars(c));
    }
    Some(line)
}

// ---------------------------------------------------------------------------
// The round trip.
// ---------------------------------------------------------------------------
/// The compact spelling of a civil time, digit by digit.
pub open spec fn compact_chars(c: Civil) -> Seq<char> {
    let y = c.year as int;
    let mo = c.month as int;
    let d = c.day as int;
    let h = c.hour as int;
    let mi = c.minute as int;
    let sec = c.second as int;
    seq![
        digit_char(y / 1000),
        digit_char((y / 100) % 10),
        digit_char((y / 10) % 10),
        digit_char(y % 10),
        digit_char(mo / 10),
        digit_char(mo % 10),
        digit_char(d / 10),
        digit_char(d % 10),
        'T',
        digit_char(h / 10),
        digit_char(h % 10),
        digit_char(mi / 10),
        digit_char(mi % 10),
        digit_char(sec / 10),
        digit_char(sec % 10),
        'Z',
    ]
}

/// LAW: parsing then formatting round-trips.  A valid civil time, spelled
/// compactly, parses to exactly its own epoch seconds; and the civil time
/// displayed for that instant is the original one, so formatting it at a
/// fixed display offset renders the original fields, shifted by exactly
/// that offset.
pub proof fn lemma_parse_format_round_trip(c: Civil)
    requires
        valid_civil(c),
    ensures
        parse_compact(compact_chars(c)) == Some(epoch_of_civil(c)),
        civil_of_epoch(epoch_of_civil(c)) == c,
{
    let s = compact_chars(c);
    let y = c.year as int;
    let mo = c.month as int;
    let d = c.day as int;
    let h = c.hour as int;
    let mi = c.minute as int;
    let sec = c.second as int;
    lemma_div_denominator(y, 10, 10);
    lemma_div_denominator(y, 100, 10);
    lemma_fundamental_div_mod(y, 10);
    lemma_fundamental_div_mod(y / 10, 10);
    lemma_fundamental_div_mod(y / 100, 10);
    assert(y / 1000 <= 9) by {
        lemma_div_is_ordered(y, 9999, 1000);
    }
    assert(forall|k: int|
        0 <= k < 10 ==> is_digit_char(#[trigger] digit_char(k)) && digit_val(digit_char(k)) == k);
    assert(compact_shape_ok(s));
    assert(four_digit_value(s, 0) == y);
    assert(two_digit_value(s, 4) == mo) by {
        lemma_fundamental_div_mod(mo, 10);
    }
    assert(two_digit_value(s, 6) == d) by {
        lemma_fundamental_div_mod(d, 10);
    }
    assert(two_digit_value(s, 9) == h) by {
        lemma_fundamental_div_mod(h, 10);
    }
    assert(two_digit_value(s, 11) == mi) by {
        lemma_fundamental_div_mod(mi, 10);
    }
    assert(two_digit_value(s, 13) == sec) by {
        lemma_fundamental_div_mod(sec, 10);
    }
    assert(civil_of_compact(s) == c);
    let cc = civil_of_epoch(epoch_of_civil(c));
    assert(valid_civil(cc) && epoch_of_civil(cc) == epoch_of_civil(c)) by {
        assert(valid_civil(c) && epoch_of_civil(c) == epoch_of_civil(c));
    }
    lemma_epoch_of_civil_injective(c, cc);
}

} // verus!
