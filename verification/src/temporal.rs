//! Temporal literal parsers: strict date, time, datetime, timestamp and
//! duration forms, over a proleptic Gregorian calendar model.

use vstd::prelude::*;

use crate::chars::{
    all_digits, all_digits_range, digits_val, fits_i64, int_val, is_digit, is_int_lexeme,
    lemma_digits_val_bound, parse_digits_checked, parse_i64_range, pow10, to_chars,
};

verus! {

broadcast use vstd::std_specs::vec::group_vec_axioms, vstd::seq::group_seq_axioms;

/// Proleptic day count of 1970-01-01 (day 1 being 0001-01-01).
pub const UNIX_EPOCH_DAY: i32 = 719_163;

/// Nanoseconds in one day.
pub const NS_IN_DAY: i64 = 86_400_000_000_000;

pub open spec fn is_leap_year(y: int) -> bool {
    (y % 4 == 0 && y % 100 != 0) || y % 400 == 0
}

pub open spec fn days_in_year(y: int) -> int {
    if is_leap_year(y) {
        366
    } else {
        365
    }
}

pub open spec fn days_in_month(y: int, m: int) -> int {
    if m == 2 {
        if is_leap_year(y) {
            29
        } else {
            28
        }
    } else if m == 4 || m == 6 || m == 9 || m == 11 {
        30
    } else {
        31
    }
}

/// Days of year `y` that lie before month `m`.
pub open spec fn days_before_month(y: int, m: int) -> int
    decreases m,
{
    if m <= 1 {
        0
    } else {
        days_before_month(y, m - 1) + days_in_month(y, m - 1)
    }
}

/// Proleptic day count of the day before January 1st of year `y`
/// (year 0 is a leap year of the proleptic calendar).
pub open spec fn days_before_year(y: int) -> int
    decreases y,
{
    if y <= 0 {
        -366
    } else {
        days_before_year(y - 1) + days_in_year(y - 1)
    }
}

/// Proleptic day count of a calendar date; 0001-01-01 is day 1.
pub open spec fn days_from_ce(y: int, m: int, d: int) -> int {
    days_before_year(y) + days_before_month(y, m) + d
}

pub open spec fn valid_ymd(y: int, m: int, d: int) -> bool {
    &&& 0 <= y <= 9999
    &&& 1 <= m <= 12
    &&& 1 <= d <= days_in_month(y, m)
}

/// The strict `YYYY-MM-DD` shape.
pub open spec fn is_date_lexeme(s: Seq<char>) -> bool {
    &&& s.len() == 10
    &&& all_digits(s.subrange(0, 4))
    &&& s[4] == '-'
    &&& all_digits(s.subrange(5, 7))
    &&& s[7] == '-'
    &&& all_digits(s.subrange(8, 10))
}

pub open spec fn date_y(s: Seq<char>) -> int {
    digits_val(s.subrange(0, 4)) as int
}

pub open spec fn date_m(s: Seq<char>) -> int {
    digits_val(s.subrange(5, 7)) as int
}

pub open spec fn date_d(s: Seq<char>) -> int {
    digits_val(s.subrange(8, 10)) as int
}

pub open spec fn date_valid(s: Seq<char>) -> bool {
    &&& is_date_lexeme(s)
    &&& 1 <= date_m(s) <= 12
    &&& 1 <= date_d(s) <= days_in_month(date_y(s), date_m(s))
}

/// Day count since 1970-01-01 of a valid date lexeme.
pub open spec fn date_value(s: Seq<char>) -> int {
    days_from_ce(date_y(s), date_m(s), date_d(s)) - UNIX_EPOCH_DAY
}

/// The strict `HH:MM:SS` shape with an optional fraction of at most nine
/// digits.
pub open spec fn is_time_lexeme(s: Seq<char>) -> bool {
    &&& (s.len() == 8 || (9 <= s.len() <= 18 && s[8] == '.'))
    &&& all_digits(s.subrange(0, 2))
    &&& s[2] == ':'
    &&& all_digits(s.subrange(3, 5))
    &&& s[5] == ':'
    &&& all_digits(s.subrange(6, 8))
    &&& (s.len() > 8 ==> all_digits(s.subrange(9, s.len() as int)))
}

pub open spec fn time_hh(s: Seq<char>) -> int {
    digits_val(s.subrange(0, 2)) as int
}

pub open spec fn time_mm(s: Seq<char>) -> int {
    digits_val(s.subrange(3, 5)) as int
}

pub open spec fn time_ss(s: Seq<char>) -> int {
    digits_val(s.subrange(6, 8)) as int
}

/// Fraction digits right-padded with zeros to nanosecond precision.
pub open spec fn time_frac(s: Seq<char>) -> int {
    if s.len() <= 8 {
        0
    } else {
        (digits_val(s.subrange(9, s.len() as int)) * pow10((18 - s.len()) as nat)) as int
    }
}

pub open spec fn time_valid(s: Seq<char>) -> bool {
    &&& is_time_lexeme(s)
    &&& time_hh(s) <= 23
    &&& time_mm(s) <= 59
    &&& time_ss(s) <= 59
}

/// Nanoseconds since midnight of a valid time lexeme.
pub open spec fn time_value(s: Seq<char>) -> int {
    (time_hh(s) * 3600 + time_mm(s) * 60 + time_ss(s)) * 1_000_000_000 + time_frac(s)
}

pub proof fn lemma_pow10_add(a: nat, b: nat)
    ensures
        pow10(a + b) == pow10(a) * pow10(b),
    decreases a,
{
    if a == 0 {
        assert(pow10(a) == 1);
        assert(a + b == b);
        assert(pow10(a + b) == pow10(b));
    } else {
        lemma_pow10_add((a - 1) as nat, b);
        assert(pow10(a + b) == 10 * pow10((a + b - 1) as nat));
        assert(pow10((a + b - 1) as nat) == pow10((a - 1) as nat) * pow10(b));
        assert(pow10(a) * pow10(b) == 10 * (pow10((a - 1) as nat) * pow10(b)))
            by (nonlinear_arith)
            requires
                pow10(a) == 10 * pow10((a - 1) as nat),
        ;
    }
}

/// A valid time lexeme denotes a nanosecond count within one day.
pub proof fn lemma_time_value_bounds(s: Seq<char>)
    requires
        time_valid(s),
    ensures
        0 <= time_value(s) <= 86_399_999_999_999,
{
    if s.len() > 8 {
        let fr = s.subrange(9, s.len() as int);
        lemma_digits_val_bound(fr);
        lemma_pow10_add(fr.len() as nat, (18 - s.len()) as nat);
        assert(digits_val(fr) * pow10((18 - s.len()) as nat) <= (pow10(fr.len() as nat) - 1)
            * pow10((18 - s.len()) as nat)) by (nonlinear_arith)
            requires
                digits_val(fr) <= pow10(fr.len() as nat) - 1,
        ;
        assert((pow10(fr.len() as nat) - 1) * pow10((18 - s.len()) as nat) == pow10(
            fr.len() as nat,
        ) * pow10((18 - s.len()) as nat) - pow10((18 - s.len()) as nat)) by (nonlinear_arith);
        assert(pow10((18 - s.len()) as nat) >= 1) by {
            lemma_pow10_pos((18 - s.len()) as nat);
        }
        assert(time_frac(s) <= 999_999_999) by {
            assert(pow10(fr.len() as nat) * pow10((18 - s.len()) as nat) == pow10(9));
            assert(pow10(9) == 1_000_000_000) by {
                reveal_with_fuel(pow10, 10);
            }
        }
    }
}

pub proof fn lemma_pow10_pos(n: nat)
    ensures
        pow10(n) >= 1,
    decreases n,
{
    if n > 0 {
        lemma_pow10_pos((n - 1) as nat);
    }
}

fn is_leap_exec(y: u64) -> (r: bool)
    ensures
        r == is_leap_year(y as int),
{
    (y % 4 == 0 && y % 100 != 0) || y % 400 == 0
}

fn days_in_month_exec(y: u64, m: u64) -> (r: u64)
    ensures
        r == days_in_month(y as int, m as int),
{
    if m == 2 {
        if is_leap_exec(y) {
            29
        } else {
            28
        }
    } else if m == 4 || m == 6 || m == 9 || m == 11 {
        30
    } else {
        31
    }
}

/// Ten to a small power.
pub fn pow10_exec(n: u64) -> (r: u64)
    requires
        n <= 9,
    ensures
        r == pow10(n as nat),
{
    proof {
        reveal_with_fuel(pow10, 10);
    }
    if n == 0 {
        1
    } else if n == 1 {
        10
    } else if n == 2 {
        100
    } else if n == 3 {
        1_000
    } else if n == 4 {
        10_000
    } else if n == 5 {
        100_000
    } else if n == 6 {
        1_000_000
    } else if n == 7 {
        10_000_000
    } else if n == 8 {
        100_000_000
    } else {
        1_000_000_000
    }
}

fn err_with(prefix: &str, text: &str) -> (r: String)
    ensures
        r@ == prefix@ + text@,
{
    let mut m = String::new();
    m.append(prefix);
    m.append(text);
    assert(m@ =~= prefix@ + text@);
    m
}

/// Parses strict `YYYY-MM-DD` into the day count since 1970-01-01, validating
/// the calendar date against the proleptic Gregorian calendar.
pub fn parse_date(date: &str) -> (r: Result<i32, String>)
    ensures
        r is Ok <==> date_valid(date@),
        r matches Ok(v) ==> v == date_value(date@),
        r matches Err(m) ==> m@ == "Not a valid date, "@ + date@,
{
    let v = to_chars(date);
    let n = v.len();
    if n != 10 {
        return Err(err_with("Not a valid date, ", date));
    }
    if !(all_digits_range(&v, 0, 4) && v[4] == '-' && all_digits_range(&v, 5, 7) && v[7] == '-'
        && all_digits_range(&v, 8, 10)) {
        return Err(err_with("Not a valid date, ", date));
    }
    let y = match parse_digits_checked(&v, 0, 4, 9_999) {
        Some(x) => x,
        None => {
            proof {
                lemma_digits_val_bound(v@.subrange(0, 4));
                reveal_with_fuel(pow10, 5);
            }
            return Err(err_with("Not a valid date, ", date));
        },
    };
    let m = match parse_digits_checked(&v, 5, 7, 99) {
        Some(x) => x,
        None => {
            proof {
                lemma_digits_val_bound(v@.subrange(5, 7));
                reveal_with_fuel(pow10, 3);
            }
            return Err(err_with("Not a valid date, ", date));
        },
    };
    let d = match parse_digits_checked(&v, 8, 10, 99) {
        Some(x) => x,
        None => {
            proof {
                lemma_digits_val_bound(v@.subrange(8, 10));
                reveal_with_fuel(pow10, 3);
            }
            return Err(err_with("Not a valid date, ", date));
        },
    };
    if m < 1 || m > 12 {
        return Err(err_with("Not a valid date, ", date));
    }
    let dim = days_in_month_exec(y, m);
    if d < 1 || d > dim {
        return Err(err_with("Not a valid date, ", date));
    }
    let mut acc: i64 = -366;
    let mut i: u64 = 0;
    while i < y
        invariant
            i <= y <= 9_999,
            acc == days_before_year(i as int),
            -366 <= acc <= 366 * i,
        decreases y - i,
    {
        if is_leap_exec(i) {
            acc = acc + 366;
        } else {
            acc = acc + 365;
        }
        i = i + 1;
    }
    let mut acc2: i64 = 0;
    let mut j: u64 = 1;
    while j < m
        invariant
            1 <= j <= m <= 12,
            acc2 == days_before_month(y as int, j as int),
            0 <= acc2 <= 31 * j,
        decreases m - j,
    {
        acc2 = acc2 + days_in_month_exec(y, j) as i64;
        j = j + 1;
    }
    let total: i64 = acc + acc2 + d as i64 - 719_163;
    Ok(total as i32)
}

fn time_err(time: &str) -> (r: String)
    ensures
        r@ == "Not a valid time, "@ + time@,
{
    err_with("Not a valid time, ", time)
}

/// Parses strict `HH:MM:SS[.fraction]` into nanoseconds since midnight; the
/// fraction is right-padded with zeros to nine digits.
pub fn parse_time(time: &str) -> (r: Result<i64, String>)
    ensures
        r is Ok <==> time_valid(time@),
        r matches Ok(v) ==> v == time_value(time@),
        r matches Err(m) ==> m@ == "Not a valid time, "@ + time@,
{
    let v = to_chars(time);
    let n = v.len();
    if n != 8 && !(9 <= n && n <= 18) {
        return Err(time_err(time));
    }
    if n > 8 && v[8] != '.' {
        return Err(time_err(time));
    }
    if !(all_digits_range(&v, 0, 2) && v[2] == ':' && all_digits_range(&v, 3, 5) && v[5] == ':'
        && all_digits_range(&v, 6, 8)) {
        return Err(time_err(time));
    }
    if n > 8 && !all_digits_range(&v, 9, n) {
        return Err(time_err(time));
    }
    let hh = match parse_digits_checked(&v, 0, 2, 99) {
        Some(x) => x,
        None => {
            proof {
                lemma_digits_val_bound(v@.subrange(0, 2));
                reveal_with_fuel(pow10, 3);
            }
            return Err(time_err(time));
        },
    };
    let mm = match parse_digits_checked(&v, 3, 5, 99) {
        Some(x) => x,
        None => {
            proof {
                lemma_digits_val_bound(v@.subrange(3, 5));
                reveal_with_fuel(pow10, 3);
            }
            return Err(time_err(time));
        },
    };
    let ss = match parse_digits_checked(&v, 6, 8, 99) {
        Some(x) => x,
        None => {
            proof {
                lemma_digits_val_bound(v@.subrange(6, 8));
                reveal_with_fuel(pow10, 3);
            }
            return Err(time_err(time));
        },
    };
    if hh > 23 || mm > 59 || ss > 59 {
        return Err(time_err(time));
    }
    let frac: u64 = if n > 8 {
        let fv = match parse_digits_checked(&v, 9, n, u64::MAX) {
            Some(x) => x,
            None => {
                proof {
                    lemma_digits_val_bound(v@.subrange(9, n as int));
                    lemma_pow10_le(((n - 9) as nat), 19nat);
                    reveal_with_fuel(pow10, 20);
                }
                return Err(time_err(time));
            },
        };
        proof {
            lemma_digits_val_bound(v@.subrange(9, n as int));
            lemma_pow10_add((n - 9) as nat, (18 - n) as nat);
            lemma_pow10_pos((18 - n) as nat);
            assert(pow10(9) == 1_000_000_000) by {
                reveal_with_fuel(pow10, 10);
            }
            assert(fv * pow10((18 - n) as nat) <= (pow10((n - 9) as nat) - 1) * pow10(
                (18 - n) as nat,
            )) by (nonlinear_arith)
                requires
                    fv <= pow10((n - 9) as nat) - 1,
                    pow10((18 - n) as nat) >= 1,
            ;
            assert((pow10((n - 9) as nat) - 1) * pow10((18 - n) as nat) == pow10((n - 9) as nat)
                * pow10((18 - n) as nat) - pow10((18 - n) as nat)) by (nonlinear_arith);
        }
        fv * pow10_exec(18 - n as u64)
    } else {
        0
    };
    let total: i64 = ((hh * 3600 + mm * 60 + ss) as i64) * 1_000_000_000 + frac as i64;
    Ok(total)
}

pub proof fn lemma_pow10_le(a: nat, b: nat)
    requires
        a <= b,
    ensures
        pow10(a) <= pow10(b),
    decreases b,
{
    if a < b && b > 0 {
        lemma_pow10_le(a, (b - 1) as nat);
        lemma_pow10_pos((b - 1) as nat);
    }
}

/// First occurrence of `c` at or after `k`, or the length.
pub open spec fn find_char_from(s: Seq<char>, c: char, k: int) -> int
    decreases s.len() - k,
{
    if k < 0 || k >= s.len() {
        s.len() as int
    } else if s[k] == c {
        k
    } else {
        find_char_from(s, c, k + 1)
    }
}

/// Position of the day separator of a day-prefixed duration.
pub open spec fn dur_day_pos(s: Seq<char>) -> int {
    find_char_from(s, 'D', 0)
}

pub open spec fn dur_day_part(s: Seq<char>) -> Seq<char> {
    s.subrange(0, dur_day_pos(s))
}

pub open spec fn dur_time_part(s: Seq<char>) -> Seq<char> {
    s.subrange(dur_day_pos(s) + 1, s.len() as int)
}

pub open spec fn dur_time_value(s: Seq<char>) -> int {
    if dur_time_part(s).len() == 0 {
        0
    } else {
        time_value(dur_time_part(s))
    }
}

pub open spec fn dur_ends_ns(s: Seq<char>) -> bool {
    s.len() >= 2 && s[s.len() - 1] == 's' && s[s.len() - 2] == 'n'
}

pub open spec fn dur_suffix_mul(s: Seq<char>) -> int {
    if dur_ends_ns(s) {
        1
    } else if s.len() >= 1 && s[s.len() - 1] == 's' {
        1_000_000_000
    } else if s.len() >= 1 && s[s.len() - 1] == 'm' {
        60_000_000_000
    } else {
        3_600_000_000_000
    }
}

pub open spec fn dur_magnitude_part(s: Seq<char>) -> Seq<char> {
    if dur_ends_ns(s) {
        s.subrange(0, s.len() - 2)
    } else {
        s.subrange(0, s.len() - 1)
    }
}

/// Either the day-prefixed form `{signed days}D{optional time}` or a signed
/// magnitude with one of the suffixes `ns`, `s`, `m`, `h`.
pub open spec fn dur_valid(s: Seq<char>) -> bool {
    if dur_day_pos(s) < s.len() {
        &&& is_int_lexeme(dur_day_part(s))
        &&& fits_i64(int_val(dur_day_part(s)))
        &&& (dur_time_part(s).len() == 0 || time_valid(dur_time_part(s)))
        &&& fits_i64(int_val(dur_day_part(s)) * (NS_IN_DAY as int) + dur_time_value(s))
    } else if dur_ends_ns(s) || (s.len() >= 1 && (s[s.len() - 1] == 's' || s[s.len() - 1] == 'm'
        || s[s.len() - 1] == 'h')) {
        &&& is_int_lexeme(dur_magnitude_part(s))
        &&& fits_i64(int_val(dur_magnitude_part(s)) * dur_suffix_mul(s))
    } else {
        false
    }
}

/// Signed nanosecond value of a valid duration lexeme.
pub open spec fn dur_value(s: Seq<char>) -> int {
    if dur_day_pos(s) < s.len() {
        int_val(dur_day_part(s)) * (NS_IN_DAY as int) + dur_time_value(s)
    } else {
        int_val(dur_magnitude_part(s)) * dur_suffix_mul(s)
    }
}

fn dur_err(duration: &str) -> (r: String)
    ensures
        r@ == "Not a valid duration, "@ + duration@,
{
    err_with("Not a valid duration, ", duration)
}

/// Parses a duration literal into signed nanoseconds: either
/// `{days}D{optional time}` or an integer with an `ns`, `s`, `m` or `h`
/// suffix.
pub fn parse_duration(duration: &str) -> (r: Result<i64, String>)
    ensures
        r is Ok <==> dur_valid(duration@),
        r matches Ok(v) ==> v == dur_value(duration@),
        r matches Err(m) ==> m@ == "Not a valid duration, "@ + duration@,
{
    let v = to_chars(duration);
    let n = v.len();
    let mut p: usize = 0;
    while p < n && v[p] != 'D'
        invariant
            v@ == duration@,
            n == v@.len(),
            0 <= p <= n,
            find_char_from(duration@, 'D', 0) == find_char_from(duration@, 'D', p as int),
        decreases n - p,
    {
        p = p + 1;
    }
    proof {
        if p < n {
            assert(find_char_from(duration@, 'D', p as int) == p as int);
        } else {
            assert(find_char_from(duration@, 'D', p as int) == n as int);
        }
    }
    if p < n {
        let day = match parse_i64_range(&v, 0, p) {
            Some(x) => x,
            None => {
                return Err(dur_err(duration));
            },
        };
        proof {
            assert(dur_day_part(duration@) =~= v@.subrange(0, p as int));
            assert(dur_time_part(duration@) =~= v@.subrange(p + 1, n as int));
        }
        let nano: i64 = if p + 1 == n {
            0
        } else {
            let st = crate::chars::string_from_range(duration, p + 1, n);
            match parse_time(st.as_str()) {
                Ok(t) => {
                    proof {
                        lemma_time_value_bounds(st@);
                    }
                    t
                },
                Err(_) => {
                    return Err(dur_err(duration));
                },
            }
        };
        let wide: i128 = day as i128 * NS_IN_DAY as i128 + nano as i128;
        if wide > i64::MAX as i128 || wide < i64::MIN as i128 {
            return Err(dur_err(duration));
        }
        Ok(wide as i64)
    } else if n >= 2 && v[n - 1] == 's' && v[n - 2] == 'n' {
        match parse_i64_range(&v, 0, n - 2) {
            Some(x) => {
                proof {
                    assert(dur_magnitude_part(duration@) =~= v@.subrange(0, n - 2));
                }
                Ok(x)
            },
            None => Err(dur_err(duration)),
        }
    } else if n >= 1 && (v[n - 1] == 's' || v[n - 1] == 'm' || v[n - 1] == 'h') {
        let mul: i64 = if v[n - 1] == 's' {
            1_000_000_000
        } else if v[n - 1] == 'm' {
            60_000_000_000
        } else {
            3_600_000_000_000
        };
        match parse_i64_range(&v, 0, n - 1) {
            Some(x) => {
                proof {
                    assert(dur_magnitude_part(duration@) =~= v@.subrange(0, n - 1));
                }
                proof {
                    assert(x as i128 * mul as i128 <= 0x8000_0000_0000_0000i128
                        * 3_600_000_000_000i128 && x as i128 * mul as i128 >= -(
                    0x8000_0000_0000_0000i128 * 3_600_000_000_000i128)) by (nonlinear_arith)
                        requires
                            -0x8000_0000_0000_0000i128 <= x as i128 <= 0x7fff_ffff_ffff_ffffi128,
                            1 <= mul as i128 <= 3_600_000_000_000i128,
                    ;
                }
                let wide: i128 = x as i128 * mul as i128;
                if wide > i64::MAX as i128 || wide < i64::MIN as i128 {
                    return Err(dur_err(duration));
                }
                Ok(wide as i64)
            },
            None => Err(dur_err(duration)),
        }
    } else {
        Err(dur_err(duration))
    }
}

pub open spec fn datetime_valid(s: Seq<char>) -> bool {
    &&& s.len() >= 12
    &&& s[10] == 'T'
    &&& date_valid(s.subrange(0, 10))
    &&& time_valid(s.subrange(11, s.len() as int))
}

/// Epoch milliseconds of a valid datetime lexeme; the fraction is truncated
/// to millisecond precision.
pub open spec fn datetime_value(s: Seq<char>) -> int {
    date_value(s.subrange(0, 10)) * 86_400_000 + time_value(s.subrange(11, s.len() as int))
        / 1_000_000
}

/// Parses strict `YYYY-MM-DDTHH:MM:SS[.fraction]` into epoch milliseconds.
pub fn parse_datetime(datetime: &str) -> (r: Result<i64, String>)
    ensures
        r is Ok <==> datetime_valid(datetime@),
        r matches Ok(v) ==> v == datetime_value(datetime@),
        r matches Err(m) ==> m@ == "Not a valid datetime, "@ + datetime@,
{
    let v = to_chars(datetime);
    let n = v.len();
    if n < 12 || v[10] != 'T' {
        return Err(err_with("Not a valid datetime, ", datetime));
    }
    let ds = crate::chars::string_from_range(datetime, 0, 10);
    let day = match parse_date(ds.as_str()) {
        Ok(x) => x,
        Err(_) => {
            return Err(err_with("Not a valid datetime, ", datetime));
        },
    };
    let ts = crate::chars::string_from_range(datetime, 11, n);
    let t = match parse_time(ts.as_str()) {
        Ok(x) => x,
        Err(_) => {
            return Err(err_with("Not a valid datetime, ", datetime));
        },
    };
    proof {
        lemma_time_value_bounds(ts@);
    }
    Ok(day as i64 * 86_400_000 + t / 1_000_000)
}

pub open spec fn timestamp_valid(s: Seq<char>) -> bool {
    &&& s.len() >= 12
    &&& s[10] == 'D'
    &&& date_valid(s.subrange(0, 10))
    &&& time_valid(s.subrange(11, s.len() as int))
}

/// Epoch nanoseconds of a valid timestamp lexeme; a value outside the signed
/// 64-bit range collapses to 0.
pub open spec fn timestamp_value(s: Seq<char>) -> int {
    let raw = date_value(s.subrange(0, 10)) * (NS_IN_DAY as int) + time_value(
        s.subrange(11, s.len() as int),
    );
    if fits_i64(raw) {
        raw
    } else {
        0
    }
}

/// Parses strict `YYYY-MM-DDDHH:MM:SS[.fraction]` into epoch nanoseconds;
/// overflow collapses to 0 rather than failing.
pub fn parse_timestamp(datetime: &str) -> (r: Result<i64, String>)
    ensures
        r is Ok <==> timestamp_valid(datetime@),
        r matches Ok(v) ==> v == timestamp_value(datetime@),
        r matches Err(m) ==> m@ == "Not a valid datetime, "@ + datetime@,
{
    let v = to_chars(datetime);
    let n = v.len();
    if n < 12 || v[10] != 'D' {
        return Err(err_with("Not a valid datetime, ", datetime));
    }
    let ds = crate::chars::string_from_range(datetime, 0, 10);
    let day = match parse_date(ds.as_str()) {
        Ok(x) => x,
        Err(_) => {
            return Err(err_with("Not a valid datetime, ", datetime));
        },
    };
    let ts = crate::chars::string_from_range(datetime, 11, n);
    let t = match parse_time(ts.as_str()) {
        Ok(x) => x,
        Err(_) => {
            return Err(err_with("Not a valid datetime, ", datetime));
        },
    };
    proof {
        lemma_time_value_bounds(ts@);
    }
    let wide: i128 = day as i128 * NS_IN_DAY as i128 + t as i128;
    if wide > i64::MAX as i128 || wide < i64::MIN as i128 {
        Ok(0)
    } else {
        Ok(wide as i64)
    }
}

pub proof fn lemma_dbm_monotone(y: int, m1: int, m2: int)
    requires
        1 <= m1 <= m2,
    ensures
        days_before_month(y, m1) <= days_before_month(y, m2),
    decreases m2,
{
    if m1 < m2 {
        lemma_dbm_monotone(y, m1, m2 - 1);
        assert(days_in_month(y, m2 - 1) >= 28);
    }
}

pub proof fn lemma_dbm_13(y: int)
    ensures
        days_before_month(y, 13) == days_in_year(y),
{
    reveal_with_fuel(days_before_month, 14);
}

pub proof fn lemma_dby_monotone(y1: int, y2: int)
    requires
        0 <= y1 <= y2,
    ensures
        days_before_year(y1) <= days_before_year(y2),
    decreases y2,
{
    if y1 < y2 {
        lemma_dby_monotone(y1, y2 - 1);
        assert(days_in_year(y2 - 1) >= 365);
    }
}

/// The proleptic day count is strictly monotone in the calendar order of
/// valid dates.
pub proof fn lemma_days_from_ce_strictly_monotone(
    y1: int,
    m1: int,
    d1: int,
    y2: int,
    m2: int,
    d2: int,
)
    requires
        valid_ymd(y1, m1, d1),
        valid_ymd(y2, m2, d2),
        y1 < y2 || (y1 == y2 && m1 < m2) || (y1 == y2 && m1 == m2 && d1 < d2),
    ensures
        days_from_ce(y1, m1, d1) < days_from_ce(y2, m2, d2),
{
    if y1 == y2 && m1 == m2 {
    } else if y1 == y2 {
        assert(days_before_month(y1, m1 + 1) == days_before_month(y1, m1) + days_in_month(
            y1,
            m1,
        ));
        lemma_dbm_monotone(y1, m1 + 1, m2);
    } else {
        assert(days_before_month(y1, m1 + 1) == days_before_month(y1, m1) + days_in_month(
            y1,
            m1,
        ));
        lemma_dbm_monotone(y1, m1 + 1, 13);
        lemma_dbm_13(y1);
        assert(days_before_year(y1 + 1) == days_before_year(y1) + days_in_year(y1));
        lemma_dby_monotone(y1 + 1, y2);
        lemma_dbm_monotone(y2, 1, m2);
    }
}

/// Injectivity of the proleptic day count over valid calendar dates.
pub proof fn lemma_days_from_ce_injective(y1: int, m1: int, d1: int, y2: int, m2: int, d2: int)
    requires
        valid_ymd(y1, m1, d1),
        valid_ymd(y2, m2, d2),
        days_from_ce(y1, m1, d1) == days_from_ce(y2, m2, d2),
    ensures
        y1 == y2 && m1 == m2 && d1 == d2,
{
    if y1 < y2 || (y1 == y2 && m1 < m2) || (y1 == y2 && m1 == m2 && d1 < d2) {
        lemma_days_from_ce_strictly_monotone(y1, m1, d1, y2, m2, d2);
    } else if y2 < y1 || (y2 == y1 && m2 < m1) || (y2 == y1 && m2 == m1 && d2 < d1) {
        lemma_days_from_ce_strictly_monotone(y2, m2, d2, y1, m1, d1);
    }
}

/// A parsed date's day count plus the fixed epoch-day constant reproduces
/// the proleptic day count of its calendar date.
pub proof fn lemma_date_value_reproduces_day_count(s: Seq<char>)
    requires
        date_valid(s),
    ensures
        date_value(s) + UNIX_EPOCH_DAY == days_from_ce(date_y(s), date_m(s), date_d(s)),
{
}

/// Two digit strings of the same width with the same value are identical.
pub proof fn lemma_digits_val_injective(s1: Seq<char>, s2: Seq<char>)
    requires
        all_digits(s1),
        all_digits(s2),
        s1.len() == s2.len(),
        digits_val(s1) == digits_val(s2),
    ensures
        s1 == s2,
    decreases s1.len(),
{
    if s1.len() == 0 {
        assert(s1 =~= s2);
    } else {
        assert(is_digit(s1.last()) && is_digit(s2.last()));
        assert(all_digits(s1.drop_last())) by {
            assert(forall|i: int|
                0 <= i < s1.drop_last().len() ==> s1.drop_last()[i] == #[trigger] s1[i]);
        }
        assert(all_digits(s2.drop_last())) by {
            assert(forall|i: int|
                0 <= i < s2.drop_last().len() ==> s2.drop_last()[i] == #[trigger] s2[i]);
        }
        assert(crate::chars::digit_val(s1.last()) <= 9 && crate::chars::digit_val(s2.last())
            <= 9);
        assert(digits_val(s1) == digits_val(s1.drop_last()) * 10 + crate::chars::digit_val(
            s1.last(),
        ));
        assert(digits_val(s2) == digits_val(s2.drop_last()) * 10 + crate::chars::digit_val(
            s2.last(),
        ));
        assert(digits_val(s1.drop_last()) == digits_val(s2.drop_last()) && crate::chars::digit_val(
            s1.last(),
        ) == crate::chars::digit_val(s2.last()));
        lemma_digits_val_injective(s1.drop_last(), s2.drop_last());
        assert(s1.last() as u32 == s2.last() as u32);
        vstd::utf8::char_u32_cast(s1.last(), s1.last() as u32);
        vstd::utf8::char_u32_cast(s2.last(), s2.last() as u32);
        assert(s1.last() == s2.last());
        assert(forall|i: int|
            0 <= i < s1.len() - 1 ==> #[trigger] s1[i] == s1.drop_last()[i] && s2[i]
                == s2.drop_last()[i]);
        assert(s1 =~= s2);
    }
}

/// `parse_date` is injective: two valid date lexemes denoting the same day
/// count are the same text. Together with the ensures of `parse_date`, whose
/// result plus `UNIX_EPOCH_DAY` is the proleptic day count `days_from_ce`,
/// this pins the date encoding down completely.
pub proof fn lemma_parse_date_injective(s1: Seq<char>, s2: Seq<char>)
    requires
        date_valid(s1),
        date_valid(s2),
        date_value(s1) == date_value(s2),
    ensures
        s1 == s2,
{
    lemma_digits_val_bound(s1.subrange(0, 4));
    lemma_digits_val_bound(s2.subrange(0, 4));
    assert(pow10(4) == 10_000 && pow10(2) == 100) by {
        reveal_with_fuel(pow10, 5);
    }
    lemma_days_from_ce_injective(
        date_y(s1),
        date_m(s1),
        date_d(s1),
        date_y(s2),
        date_m(s2),
        date_d(s2),
    );
    lemma_digits_val_injective(s1.subrange(0, 4), s2.subrange(0, 4));
    lemma_digits_val_injective(s1.subrange(5, 7), s2.subrange(5, 7));
    lemma_digits_val_injective(s1.subrange(8, 10), s2.subrange(8, 10));
    assert(s1 =~= s2) by {
        assert(forall|i: int| 0 <= i < 4 ==> s1.subrange(0, 4)[i] == #[trigger] s1[i]
            && s2.subrange(0, 4)[i] == s2[i]);
        assert(forall|i: int| 5 <= i < 7 ==> s1.subrange(5, 7)[i - 5] == #[trigger] s1[i]
            && s2.subrange(5, 7)[i - 5] == s2[i]);
        assert(forall|i: int| 8 <= i < 10 ==> s1.subrange(8, 10)[i - 8] == #[trigger] s1[i]
            && s2.subrange(8, 10)[i - 8] == s2[i]);
    }
}

} // verus!
