//! The literal classifier: an ordered table of pattern rules over the first
//! element's lexeme, first match wins. The order is part of the observable
//! behaviour and must not change.

use vstd::prelude::*;

use crate::chars::{all_digits, all_digits_range, range_eq_str};
use crate::dec::{dec_body, dec_frac_part, dec_int_part};
use crate::temporal::{find_char_from, is_date_lexeme, is_time_lexeme};

verus! {

broadcast use vstd::std_specs::vec::group_vec_axioms, vstd::seq::group_seq_axioms;

/// Element type of a homogeneous series.
#[derive(Clone, Copy, PartialEq, Eq, Structural, Debug)]
pub enum SeriesKind {
    Bool,
    U8,
    I8,
    U16,
    I16,
    U32,
    I32,
    U64,
    I64,
    F32,
    F64,
    Date,
    Time,
    Datetime,
    Timestamp,
    Duration,
    Symbol,
    Str,
    Null,
}

/// Digits with an optional leading minus.
pub open spec fn is_neg_digits(s: Seq<char>) -> bool {
    ||| (s.len() >= 1 && all_digits(s))
    ||| (s.len() >= 2 && s[0] == '-' && all_digits(s.subrange(1, s.len() as int)))
}

/// Unsigned digits followed by exactly the suffix.
pub open spec fn is_uint_suffixed(s: Seq<char>, suf: Seq<char>) -> bool {
    &&& s.len() > suf.len()
    &&& s.subrange(s.len() - suf.len(), s.len() as int) == suf
    &&& all_digits(s.subrange(0, s.len() - suf.len()))
}

/// Optionally negative digits followed by exactly the suffix.
pub open spec fn is_int_suffixed(s: Seq<char>, suf: Seq<char>) -> bool {
    &&& s.len() > suf.len()
    &&& s.subrange(s.len() - suf.len(), s.len() as int) == suf
    &&& is_neg_digits(s.subrange(0, s.len() - suf.len()))
}

pub open spec fn is_bool_lexeme(s: Seq<char>) -> bool {
    s == "true"@ || s == "false"@
}

/// A bare or `i64`-suffixed signed integer.
pub open spec fn is_i64_lexeme(s: Seq<char>) -> bool {
    is_neg_digits(s) || is_int_suffixed(s, "i64"@)
}

/// The loose decimal shape: optional minus, digits, optional dot, digits;
/// each part may be empty.
pub open spec fn is_loose_dec_shape(s: Seq<char>) -> bool {
    &&& all_digits(dec_int_part(s))
    &&& all_digits(dec_frac_part(s))
    &&& !(s.len() > 0 && s[0] == '+')
}

pub open spec fn is_f32_lexeme(s: Seq<char>) -> bool {
    s.len() >= 3 && s.subrange(s.len() - 3, s.len() as int) == "f32"@ && is_loose_dec_shape(
        s.subrange(0, s.len() - 3),
    )
}

pub open spec fn is_f64_lexeme(s: Seq<char>) -> bool {
    ||| is_loose_dec_shape(s)
    ||| (s.len() >= 3 && s.subrange(s.len() - 3, s.len() as int) == "f64"@ && is_loose_dec_shape(
        s.subrange(0, s.len() - 3),
    ))
}

/// Date, `T`, optional time with a fraction of at most three digits.
pub open spec fn is_datetime_series_lexeme(s: Seq<char>) -> bool {
    &&& s.len() >= 11
    &&& is_date_lexeme(s.subrange(0, 10))
    &&& s[10] == 'T'
    &&& (s.len() == 11 || (is_time_lexeme(s.subrange(11, s.len() as int)) && s.len() <= 23))
}

/// Date, `D`, optional time with a fraction of at most nine digits.
pub open spec fn is_timestamp_series_lexeme(s: Seq<char>) -> bool {
    &&& s.len() >= 11
    &&& is_date_lexeme(s.subrange(0, 10))
    &&& s[10] == 'D'
    &&& (s.len() == 11 || is_time_lexeme(s.subrange(11, s.len() as int)))
}

/// Signed day count, `D`, optional time.
pub open spec fn is_dur_day_lexeme(s: Seq<char>) -> bool {
    let p = find_char_from(s, 'D', 0);
    &&& p < s.len()
    &&& is_neg_digits(s.subrange(0, p))
    &&& (p + 1 == s.len() || is_time_lexeme(s.subrange(p + 1, s.len() as int)))
}

/// Signed magnitude with an `ns`, `s`, `m` or `h` suffix.
pub open spec fn is_dur_suffix_lexeme(s: Seq<char>) -> bool {
    ||| (s.len() >= 3 && s.subrange(s.len() - 2, s.len() as int) == "ns"@ && is_neg_digits(
        s.subrange(0, s.len() - 2),
    ))
    ||| (s.len() >= 2 && (s[s.len() - 1] == 's' || s[s.len() - 1] == 'm' || s[s.len() - 1] == 'h')
        && is_neg_digits(s.subrange(0, s.len() - 1)))
}

/// A back-tick, no inner back-tick, optionally closed by one.
pub open spec fn is_sym_lexeme(s: Seq<char>) -> bool {
    &&& s.len() >= 1
    &&& s[0] == '`'
    &&& (forall|i: int| 1 <= i < s.len() - 1 ==> s[i] != '`')
}

/// A double-quoted run without inner quotes.
pub open spec fn is_str_lexeme(s: Seq<char>) -> bool {
    &&& s.len() >= 2
    &&& s[0] == '"'
    &&& s[s.len() - 1] == '"'
    &&& (forall|i: int| 1 <= i < s.len() - 1 ==> s[i] != '"')
}

/// The ordered rule table; the first matching rule decides, and a lexeme no
/// rule matches classifies as the all-null kind.
pub open spec fn classify_lexeme(s: Seq<char>) -> SeriesKind {
    if is_bool_lexeme(s) {
        SeriesKind::Bool
    } else if is_uint_suffixed(s, "u8"@) {
        SeriesKind::U8
    } else if is_int_suffixed(s, "i8"@) {
        SeriesKind::I8
    } else if is_uint_suffixed(s, "u16"@) {
        SeriesKind::U16
    } else if is_int_suffixed(s, "i16"@) {
        SeriesKind::I16
    } else if is_uint_suffixed(s, "u32"@) {
        SeriesKind::U32
    } else if is_int_suffixed(s, "i32"@) {
        SeriesKind::I32
    } else if is_uint_suffixed(s, "u64"@) {
        SeriesKind::U64
    } else if is_i64_lexeme(s) {
        SeriesKind::I64
    } else if is_f32_lexeme(s) {
        SeriesKind::F32
    } else if is_f64_lexeme(s) {
        SeriesKind::F64
    } else if is_date_lexeme(s) {
        SeriesKind::Date
    } else if is_time_lexeme(s) {
        SeriesKind::Time
    } else if is_datetime_series_lexeme(s) {
        SeriesKind::Datetime
    } else if is_timestamp_series_lexeme(s) {
        SeriesKind::Timestamp
    } else if is_dur_day_lexeme(s) {
        SeriesKind::Duration
    } else if is_dur_suffix_lexeme(s) {
        SeriesKind::Duration
    } else if is_sym_lexeme(s) {
        SeriesKind::Symbol
    } else if is_str_lexeme(s) {
        SeriesKind::Str
    } else {
        SeriesKind::Null
    }
}

/// No occurrence of `c` in `v[from..to]`.
pub fn no_char_in(v: &Vec<char>, from: usize, to: usize, c: char) -> (r: bool)
    requires
        from <= to <= v@.len(),
    ensures
        r == (forall|i: int| from <= i < to ==> v@[i] != c),
{
    let mut i = from;
    while i < to
        invariant
            from <= i <= to <= v@.len(),
            forall|j: int| from <= j < i ==> v@[j] != c,
        decreases to - i,
    {
        if v[i] == c {
            return false;
        }
        i = i + 1;
    }
    true
}

fn neg_digits_exec(v: &Vec<char>, from: usize, to: usize) -> (r: bool)
    requires
        from <= to <= v@.len(),
    ensures
        r == is_neg_digits(v@.subrange(from as int, to as int)),
{
    let ghost s = v@.subrange(from as int, to as int);
    if to == from {
        return false;
    }
    if v[from] == '-' {
        proof {
            assert(s.subrange(1, s.len() as int) =~= v@.subrange(from + 1, to as int));
            if all_digits(s) {
                assert(is_digit(s[0]));
            }
        }
        to - from >= 2 && all_digits_range(v, from + 1, to)
    } else {
        proof {
            if s.len() >= 2 && s[0] == '-' {
                assert(v@[from as int] == '-');
            }
        }
        all_digits_range(v, from, to)
    }
}

spec fn is_digit(c: char) -> bool {
    crate::chars::is_digit(c)
}

fn uint_suffixed_exec(v: &Vec<char>, from: usize, to: usize, suf: &str) -> (r: bool)
    requires
        from <= to <= v@.len(),
    ensures
        r == is_uint_suffixed(v@.subrange(from as int, to as int), suf@),
{
    let ghost s = v@.subrange(from as int, to as int);
    let sl = suf.unicode_len();
    if to - from <= sl {
        return false;
    }
    proof {
        assert(s.subrange(s.len() - sl, s.len() as int) =~= v@.subrange(to - sl, to as int));
        assert(s.subrange(0, s.len() - sl) =~= v@.subrange(from as int, to - sl));
    }
    range_eq_str(v, to - sl, to, suf) && all_digits_range(v, from, to - sl)
}

fn int_suffixed_exec(v: &Vec<char>, from: usize, to: usize, suf: &str) -> (r: bool)
    requires
        from <= to <= v@.len(),
    ensures
        r == is_int_suffixed(v@.subrange(from as int, to as int), suf@),
{
    let ghost s = v@.subrange(from as int, to as int);
    let sl = suf.unicode_len();
    if to - from <= sl {
        return false;
    }
    proof {
        assert(s.subrange(s.len() - sl, s.len() as int) =~= v@.subrange(to - sl, to as int));
        assert(s.subrange(0, s.len() - sl) =~= v@.subrange(from as int, to - sl));
    }
    range_eq_str(v, to - sl, to, suf) && neg_digits_exec(v, from, to - sl)
}

/// The loose decimal shape over `v[from..to]`.
fn loose_dec_exec(v: &Vec<char>, from: usize, to: usize) -> (r: bool)
    requires
        from <= to <= v@.len(),
    ensures
        r == is_loose_dec_shape(v@.subrange(from as int, to as int)),
{
    let ghost s = v@.subrange(from as int, to as int);
    if to > from && v[from] == '+' {
        return false;
    }
    let start = if to > from && v[from] == '-' {
        from + 1
    } else {
        from
    };
    proof {
        assert(dec_body(s) =~= v@.subrange(start as int, to as int));
    }
    let mut dot: usize = start;
    while dot < to && v[dot] != '.'
        invariant
            start <= dot <= to <= v@.len(),
            v@.subrange(start as int, to as int) == dec_body(s),
            find_char_from(dec_body(s), '.', 0) == find_char_from(
                dec_body(s),
                '.',
                dot - start,
            ),
        decreases to - dot,
    {
        proof {
            assert(dec_body(s)[dot - start] == v@[dot as int]);
        }
        dot = dot + 1;
    }
    proof {
        if dot < to {
            assert(dec_body(s)[dot - start] == v@[dot as int]);
            assert(find_char_from(dec_body(s), '.', dot - start) == dot - start);
        } else {
            assert(find_char_from(dec_body(s), '.', dot - start) == dec_body(s).len());
        }
        assert(dec_int_part(s) =~= v@.subrange(start as int, dot as int));
        if dot < to {
            assert(dec_frac_part(s) =~= v@.subrange(dot + 1, to as int));
        } else {
            assert(dec_frac_part(s) =~= v@.subrange(to as int, to as int));
        }
    }
    if !all_digits_range(v, start, dot) {
        return false;
    }
    if dot < to {
        all_digits_range(v, dot + 1, to)
    } else {
        true
    }
}

fn date_shape_exec(v: &Vec<char>, from: usize, to: usize) -> (r: bool)
    requires
        from <= to <= v@.len(),
    ensures
        r == is_date_lexeme(v@.subrange(from as int, to as int)),
{
    let ghost s = v@.subrange(from as int, to as int);
    if to - from != 10 {
        return false;
    }
    proof {
        assert(s.subrange(0, 4) =~= v@.subrange(from as int, from + 4));
        assert(s.subrange(5, 7) =~= v@.subrange(from + 5, from + 7));
        assert(s.subrange(8, 10) =~= v@.subrange(from + 8, from + 10));
    }
    all_digits_range(v, from, from + 4) && v[from + 4] == '-' && all_digits_range(
        v,
        from + 5,
        from + 7,
    ) && v[from + 7] == '-' && all_digits_range(v, from + 8, from + 10)
}

fn time_shape_exec(v: &Vec<char>, from: usize, to: usize) -> (r: bool)
    requires
        from <= to <= v@.len(),
    ensures
        r == is_time_lexeme(v@.subrange(from as int, to as int)),
{
    let ghost s = v@.subrange(from as int, to as int);
    let n = to - from;
    if n != 8 && !(9 <= n && n <= 18) {
        return false;
    }
    if n > 8 && v[from + 8] != '.' {
        return false;
    }
    proof {
        assert(s.subrange(0, 2) =~= v@.subrange(from as int, from + 2));
        assert(s.subrange(3, 5) =~= v@.subrange(from + 3, from + 5));
        assert(s.subrange(6, 8) =~= v@.subrange(from + 6, from + 8));
        if n > 8 {
            assert(s.subrange(9, s.len() as int) =~= v@.subrange(from + 9, to as int));
        }
    }
    if !(all_digits_range(v, from, from + 2) && v[from + 2] == ':' && all_digits_range(
        v,
        from + 3,
        from + 5,
    ) && v[from + 5] == ':' && all_digits_range(v, from + 6, from + 8)) {
        return false;
    }
    if n > 8 {
        all_digits_range(v, from + 9, to)
    } else {
        true
    }
}

/// Classifies the lexeme of a series element by the ordered rule table.
pub fn classify(v: &Vec<char>) -> (k: SeriesKind)
    ensures
        k == classify_lexeme(v@),
{
    let n = v.len();
    proof {
        assert(v@.subrange(0, n as int) =~= v@);
    }
    if range_eq_str(v, 0, n, "true") || range_eq_str(v, 0, n, "false") {
        return SeriesKind::Bool;
    }
    if uint_suffixed_exec(v, 0, n, "u8") {
        return SeriesKind::U8;
    }
    if int_suffixed_exec(v, 0, n, "i8") {
        return SeriesKind::I8;
    }
    if uint_suffixed_exec(v, 0, n, "u16") {
        return SeriesKind::U16;
    }
    if int_suffixed_exec(v, 0, n, "i16") {
        return SeriesKind::I16;
    }
    if uint_suffixed_exec(v, 0, n, "u32") {
        return SeriesKind::U32;
    }
    if int_suffixed_exec(v, 0, n, "i32") {
        return SeriesKind::I32;
    }
    if uint_suffixed_exec(v, 0, n, "u64") {
        return SeriesKind::U64;
    }
    if neg_digits_exec(v, 0, n) || int_suffixed_exec(v, 0, n, "i64") {
        return SeriesKind::I64;
    }
    if n >= 3 && range_eq_str(v, n - 3, n, "f32") && loose_dec_exec(v, 0, n - 3) {
        proof {
            assert(v@.subrange(n - 3, n as int) =~= v@.subrange(0, n as int).subrange(
                n - 3,
                n as int,
            ));
        }
        return SeriesKind::F32;
    }
    proof {
        if is_f32_lexeme(v@) {
            assert(v@.subrange(v@.len() - 3, v@.len() as int) == "f32"@);
            assert(v@[v@.len() - 3] == "f32"@[0]);
        }
    }
    if loose_dec_exec(v, 0, n) || (n >= 3 && range_eq_str(v, n - 3, n, "f64") && loose_dec_exec(
        v,
        0,
        n - 3,
    )) {
        return SeriesKind::F64;
    }
    proof {
        if is_f64_lexeme(v@) {
            assert(false);
        }
    }
    if date_shape_exec(v, 0, n) {
        return SeriesKind::Date;
    }
    if time_shape_exec(v, 0, n) {
        return SeriesKind::Time;
    }
    if n >= 11 && date_shape_exec(v, 0, 10) && v[10] == 'T' && (n == 11 || (n <= 23
        && time_shape_exec(v, 11, n))) {
        return SeriesKind::Datetime;
    }
    if n >= 11 && date_shape_exec(v, 0, 10) && v[10] == 'D' && (n == 11 || time_shape_exec(
        v,
        11,
        n,
    )) {
        return SeriesKind::Timestamp;
    }
    let mut p: usize = 0;
    while p < n && v[p] != 'D'
        invariant
            0 <= p <= n,
            n == v@.len(),
            find_char_from(v@, 'D', 0) == find_char_from(v@, 'D', p as int),
        decreases n - p,
    {
        p = p + 1;
    }
    proof {
        if p < n {
            assert(find_char_from(v@, 'D', p as int) == p as int);
        } else {
            assert(find_char_from(v@, 'D', p as int) == n as int);
        }
    }
    if p < n && neg_digits_exec(v, 0, p) && (p + 1 == n || time_shape_exec(v, p + 1, n)) {
        return SeriesKind::Duration;
    }
    if (n >= 3 && range_eq_str(v, n - 2, n, "ns") && neg_digits_exec(v, 0, n - 2)) || (n >= 2 && (
    v[n - 1] == 's' || v[n - 1] == 'm' || v[n - 1] == 'h') && neg_digits_exec(v, 0, n - 1)) {
        return SeriesKind::Duration;
    }
    if n >= 1 && v[0] == '`' && (n <= 2 || no_char_in(v, 1, n - 1, '`')) {
        return SeriesKind::Symbol;
    }
    if n >= 2 && v[0] == '"' && v[n - 1] == '"' && (n <= 2 || no_char_in(v, 1, n - 1, '"')) {
        return SeriesKind::Str;
    }
    SeriesKind::Null
}

} // verus!
