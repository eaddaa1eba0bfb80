//! Construction of homogeneous series literals. The first element's lexeme
//! classifies the whole series; every further element is parsed with the
//! classified kind's parser, and the first non-conforming element is
//! reported at its own position.

use vstd::prelude::*;

use crate::chars::{int_val, is_int_lexeme, parse_digits_checked, parse_i64_range, range_eq_str, to_chars};
use crate::classify::{classify, classify_lexeme, is_str_lexeme, is_sym_lexeme, SeriesKind};
use crate::dec::{dec_lexeme_canon, dec_mant_val, is_dec_lexeme, Dec, DEC_MANT_MAX};
use crate::errors::SpanErr;
use crate::j::{Series, SeriesData};
use crate::temporal::{
    date_valid, date_value, datetime_valid, datetime_value, dur_valid, dur_value, parse_date,
    parse_datetime, parse_duration, parse_time, parse_timestamp, time_valid, time_value,
    timestamp_valid, timestamp_value,
};

verus! {

broadcast use vstd::std_specs::vec::group_vec_axioms, vstd::seq::group_seq_axioms;

/// One element of a series literal: its lexeme and its byte offset.
#[derive(Debug)]
pub struct SeriesElem {
    pub text: String,
    pub start: usize,
}

/// The lexeme with the given suffix stripped, when it carries it.
pub open spec fn strip_sfx(s: Seq<char>, suf: Seq<char>) -> Seq<char> {
    if s.len() >= suf.len() && s.subrange(s.len() - suf.len(), s.len() as int) == suf {
        s.subrange(0, s.len() - suf.len())
    } else {
        s
    }
}

/// An absent slot: empty text or the word `none`.
pub open spec fn is_none_slot(s: Seq<char>) -> bool {
    s.len() == 0 || s == "none"@
}

/// An integer element: absent, or an integer lexeme within the kind's range;
/// a minus sign is refused for the unsigned kinds.
pub open spec fn elem_int_ok(s: Seq<char>, suf: Seq<char>, lo: int, hi: int, signed: bool) -> bool {
    let b = strip_sfx(s, suf);
    ||| is_none_slot(b)
    ||| (is_int_lexeme(b) && (signed || b[0] != '-') && lo <= int_val(b) <= hi)
}

/// The value of an integer element.
pub open spec fn int_slot(s: Seq<char>, suf: Seq<char>) -> Option<int> {
    let b = strip_sfx(s, suf);
    if is_none_slot(b) {
        Option::None
    } else {
        Option::Some(int_val(b))
    }
}

/// A decimal element: absent, or a decimal lexeme of at most 38 significant
/// digits.
pub open spec fn elem_dec_ok(s: Seq<char>, suf: Seq<char>) -> bool {
    let b = strip_sfx(s, suf);
    ||| is_none_slot(b)
    ||| (is_dec_lexeme(b) && dec_mant_val(b) <= DEC_MANT_MAX)
}

pub open spec fn dec_slot(s: Seq<char>, suf: Seq<char>) -> Option<Dec> {
    let b = strip_sfx(s, suf);
    if is_none_slot(b) {
        Option::None
    } else {
        Option::Some(dec_lexeme_canon(b))
    }
}

/// A boolean element.
pub open spec fn elem_bool_ok(s: Seq<char>) -> bool {
    s == "true"@ || s == "false"@ || is_none_slot(s)
}

pub open spec fn bool_slot(s: Seq<char>) -> Option<bool> {
    if s == "true"@ {
        Option::Some(true)
    } else if s == "false"@ {
        Option::Some(false)
    } else {
        Option::None
    }
}

/// The stored text of a symbol element: the leading back-tick goes, and a
/// closing one too.
pub open spec fn sym_text(s: Seq<char>) -> Seq<char> {
    if s.len() >= 2 && s[s.len() - 1] == '`' {
        s.subrange(1, s.len() - 1)
    } else {
        s.subrange(1, s.len() as int)
    }
}

/// The stored text of a string element: the quotes go.
pub open spec fn str_text(s: Seq<char>) -> Seq<char> {
    s.subrange(1, s.len() - 1)
}


/// Whether an element denotes an absent slot under its kind's parser.
pub open spec fn elem_slot_absent(k: SeriesKind, s: Seq<char>) -> bool {
    match k {
        SeriesKind::Bool => !(s == "true"@ || s == "false"@),
        SeriesKind::U8 => is_none_slot(strip_sfx(s, "u8"@)),
        SeriesKind::I8 => is_none_slot(strip_sfx(s, "i8"@)),
        SeriesKind::U16 => is_none_slot(strip_sfx(s, "u16"@)),
        SeriesKind::I16 => is_none_slot(strip_sfx(s, "i16"@)),
        SeriesKind::U32 => is_none_slot(strip_sfx(s, "u32"@)),
        SeriesKind::I32 => is_none_slot(strip_sfx(s, "i32"@)),
        SeriesKind::U64 => is_none_slot(strip_sfx(s, "u64"@)),
        SeriesKind::I64 => is_none_slot(strip_sfx(s, "i64"@)),
        SeriesKind::F32 => is_none_slot(strip_sfx(s, "f32"@)),
        SeriesKind::F64 => is_none_slot(strip_sfx(s, "f64"@)),
        _ => false,
    }
}

/// Whether one element conforms to the classified kind.
pub open spec fn elem_ok(k: SeriesKind, s: Seq<char>) -> bool {
    match k {
        SeriesKind::Bool => elem_bool_ok(s),
        SeriesKind::U8 => elem_int_ok(s, "u8"@, 0, 255, false),
        SeriesKind::I8 => elem_int_ok(s, "i8"@, -128, 127, true),
        SeriesKind::U16 => elem_int_ok(s, "u16"@, 0, 65535, false),
        SeriesKind::I16 => elem_int_ok(s, "i16"@, -32768, 32767, true),
        SeriesKind::U32 => elem_int_ok(s, "u32"@, 0, 0xffff_ffff, false),
        SeriesKind::I32 => elem_int_ok(s, "i32"@, -0x8000_0000, 0x7fff_ffff, true),
        SeriesKind::U64 => elem_int_ok(s, "u64"@, 0, 0xffff_ffff_ffff_ffff, false),
        SeriesKind::I64 => elem_int_ok(
            s,
            "i64"@,
            -0x8000_0000_0000_0000,
            0x7fff_ffff_ffff_ffff,
            true,
        ),
        SeriesKind::F32 => elem_dec_ok(s, "f32"@),
        SeriesKind::F64 => elem_dec_ok(s, "f64"@),
        SeriesKind::Date => date_valid(s),
        SeriesKind::Time => time_valid(s),
        SeriesKind::Datetime => datetime_valid(s),
        SeriesKind::Timestamp => timestamp_valid(s),
        SeriesKind::Duration => dur_valid(s),
        SeriesKind::Symbol => is_sym_lexeme(s),
        SeriesKind::Str => is_str_lexeme(s),
        SeriesKind::Null => true,
    }
}

/// The kind a series literal takes: that of its first element's lexeme
/// alone.
pub open spec fn series_kind_of(elems: Seq<SeriesElem>) -> SeriesKind {
    if elems.len() == 0 {
        SeriesKind::F64
    } else {
        classify_lexeme(elems[0].text@)
    }
}

/// Series classification is determined solely by the first element's
/// lexeme: two literals with the same first lexeme classify alike, whatever
/// comes later.
pub proof fn lemma_classification_by_first_element(e1: Seq<SeriesElem>, e2: Seq<SeriesElem>)
    requires
        e1.len() > 0,
        e2.len() > 0,
        e1[0].text@ == e2[0].text@,
    ensures
        series_kind_of(e1) == series_kind_of(e2),
{
}

pub open spec fn all_elems_ok(k: SeriesKind, elems: Seq<SeriesElem>) -> bool {
    forall|i: int| 0 <= i < elems.len() ==> elem_ok(k, #[trigger] elems[i].text@)
}

/// Elementwise relation between the lexemes and the built slots.
pub open spec fn series_content(k: SeriesKind, elems: Seq<SeriesElem>, d: SeriesData) -> bool {
    match d {
        SeriesData::Bool(v) => k is Bool && v@.len() == elems.len() && (forall|i: int|
            0 <= i < elems.len() ==> #[trigger] v@[i] == bool_slot(elems[i].text@)),
        SeriesData::U8(v) => k is U8 && v@.len() == elems.len() && (forall|i: int|
            0 <= i < elems.len() ==> opt_val_is(#[trigger] v@[i], int_slot(elems[i].text@, "u8"@))),
        SeriesData::I8(v) => k is I8 && v@.len() == elems.len() && (forall|i: int|
            0 <= i < elems.len() ==> opt_val_is_i(
                #[trigger] v@[i],
                int_slot(elems[i].text@, "i8"@),
            )),
        SeriesData::U16(v) => k is U16 && v@.len() == elems.len() && (forall|i: int|
            0 <= i < elems.len() ==> opt_val_is(
                #[trigger] v@[i],
                int_slot(elems[i].text@, "u16"@),
            )),
        SeriesData::I16(v) => k is I16 && v@.len() == elems.len() && (forall|i: int|
            0 <= i < elems.len() ==> opt_val_is_i(
                #[trigger] v@[i],
                int_slot(elems[i].text@, "i16"@),
            )),
        SeriesData::U32(v) => k is U32 && v@.len() == elems.len() && (forall|i: int|
            0 <= i < elems.len() ==> opt_val_is(
                #[trigger] v@[i],
                int_slot(elems[i].text@, "u32"@),
            )),
        SeriesData::I32(v) => k is I32 && v@.len() == elems.len() && (forall|i: int|
            0 <= i < elems.len() ==> opt_val_is_i(
                #[trigger] v@[i],
                int_slot(elems[i].text@, "i32"@),
            )),
        SeriesData::U64(v) => k is U64 && v@.len() == elems.len() && (forall|i: int|
            0 <= i < elems.len() ==> opt_val_is(
                #[trigger] v@[i],
                int_slot(elems[i].text@, "u64"@),
            )),
        SeriesData::I64(v) => k is I64 && v@.len() == elems.len() && (forall|i: int|
            0 <= i < elems.len() ==> opt_val_is_i(
                #[trigger] v@[i],
                int_slot(elems[i].text@, "i64"@),
            )),
        SeriesData::F32(v) => k is F32 && v@.len() == elems.len() && (forall|i: int|
            0 <= i < elems.len() ==> #[trigger] v@[i] == dec_slot(elems[i].text@, "f32"@)),
        SeriesData::F64(v) => k is F64 && v@.len() == elems.len() && (forall|i: int|
            0 <= i < elems.len() ==> #[trigger] v@[i] == dec_slot(elems[i].text@, "f64"@)),
        SeriesData::Date(v) => k is Date && v@.len() == elems.len() && (forall|i: int|
            0 <= i < elems.len() ==> #[trigger] v@[i] as int == date_value(elems[i].text@)),
        SeriesData::Time(v) => k is Time && v@.len() == elems.len() && (forall|i: int|
            0 <= i < elems.len() ==> #[trigger] v@[i] as int == time_value(elems[i].text@)),
        SeriesData::Datetime(v) => k is Datetime && v@.len() == elems.len() && (forall|i: int|
            0 <= i < elems.len() ==> #[trigger] v@[i] as int == datetime_value(elems[i].text@)),
        SeriesData::Timestamp(v) => k is Timestamp && v@.len() == elems.len() && (forall|i: int|
            0 <= i < elems.len() ==> #[trigger] v@[i] as int == timestamp_value(elems[i].text@)),
        SeriesData::Duration(v) => k is Duration && v@.len() == elems.len() && (forall|i: int|
            0 <= i < elems.len() ==> #[trigger] v@[i] as int == dur_value(elems[i].text@)),
        SeriesData::Symbol(v) => k is Symbol && v@.len() == elems.len() && (forall|i: int|
            0 <= i < elems.len() ==> #[trigger] v@[i]@ == sym_text(elems[i].text@)),
        SeriesData::Str(v) => k is Str && v@.len() == elems.len() && (forall|i: int|
            0 <= i < elems.len() ==> #[trigger] v@[i]@ == str_text(elems[i].text@)),
        SeriesData::Null(n) => k is Null && n == elems.len(),
    }
}

pub open spec fn opt_val_is<T>(slot: Option<T>, v: Option<int>) -> bool where T: Integer {
    match (slot, v) {
        (Option::None, Option::None) => true,
        (Option::Some(a), Option::Some(b)) => a as int == b,
        _ => false,
    }
}

pub open spec fn opt_val_is_i<T>(slot: Option<T>, v: Option<int>) -> bool where T: Integer {
    opt_val_is(slot, v)
}

/// The error position of a failed series build: the first non-conforming
/// element's own offset.
pub open spec fn series_err_at(k: SeriesKind, elems: Seq<SeriesElem>, e: SpanErr) -> bool {
    exists|i: int|
        #![trigger elems[i]]
        0 <= i < elems.len() && !elem_ok(k, elems[i].text@) && e.pos == elems[i].start && (forall|
            j: int,
        |
            0 <= j < i ==> elem_ok(k, #[trigger] elems[j].text@))
}

fn elem_err(e: &SeriesElem, what: &str) -> (r: SpanErr)
    ensures
        r.pos == e.start,
{
    let mut m = String::new();
    m.append("not a valid series element: ");
    m.append(what);
    SpanErr { msg: m, pos: e.start }
}

/// End of the element after stripping the kind's suffix, when present.
fn strip_end(v: &Vec<char>, suf: &str) -> (to: usize)
    ensures
        to <= v@.len(),
        v@.subrange(0, to as int) == strip_sfx(v@, suf@),
{
    let sl = suf.unicode_len();
    let n = v.len();
    if n >= sl && range_eq_str(v, n - sl, n, suf) {
        proof {
            assert(v@.subrange(v@.len() - suf@.len(), v@.len() as int) =~= v@.subrange(
                n - sl,
                n as int,
            ));
            assert(v@.subrange(0, (n - sl) as int) == strip_sfx(v@, suf@));
        }
        n - sl
    } else {
        proof {
            if v@.len() >= suf@.len() && v@.subrange(v@.len() - suf@.len(), v@.len() as int)
                == suf@ {
                assert(v@.subrange(v@.len() - suf@.len(), v@.len() as int) =~= v@.subrange(
                    n - sl,
                    n as int,
                ));
            }
            assert(v@.subrange(0, n as int) =~= v@);
        }
        n
    }
}

/// Whether `v[..to]` is an absent slot.
fn none_slot_exec(v: &Vec<char>, to: usize) -> (r: bool)
    requires
        to <= v@.len(),
    ensures
        r == is_none_slot(v@.subrange(0, to as int)),
{
    to == 0 || range_eq_str(v, 0, to, "none")
}


fn build_u8(elems: &Vec<SeriesElem>) -> (r: Result<Vec<Option<u8>>, SpanErr>)
    ensures
        r is Ok <==> all_elems_ok(SeriesKind::U8, elems@),
        r matches Ok(v) ==> v@.len() == elems@.len() && (forall|i: int|
            0 <= i < elems@.len() ==> opt_val_is(#[trigger] v@[i], int_slot(elems@[i].text@, "u8"@))),
        r matches Err(e) ==> series_err_at(SeriesKind::U8, elems@, e),
{
    let n = elems.len();
    let mut out: Vec<Option<u8>> = Vec::new();
    let mut i: usize = 0;
    while i < n
        invariant
            i <= n,
            n == elems@.len(),
            out@.len() == i,
            forall|j: int| 0 <= j < i ==> elem_ok(SeriesKind::U8, #[trigger] elems@[j].text@),
            forall|j: int|
                0 <= j < i ==> opt_val_is(#[trigger] out@[j], int_slot(elems@[j].text@, "u8"@)),
        decreases n - i,
    {
        let v = to_chars(elems[i].text.as_str());
        let to = strip_end(&v, "u8");
        let ghost b = strip_sfx(v@, "u8"@);
        if none_slot_exec(&v, to) {
            out.push(Option::None);
        } else {
            if v[0] == '-' {
                return Err(elem_err(&elems[i], "u8"));
            }
            let start: usize = if v[0] == '+' {
                1
            } else {
                0
            };
            proof {
                assert(crate::chars::int_digits(b) =~= v@.subrange(start as int, to as int));
            }
            if start >= to {
                return Err(elem_err(&elems[i], "u8"));
            }
            if !crate::chars::all_digits_range(&v, start, to) {
                return Err(elem_err(&elems[i], "u8"));
            }
            match parse_digits_checked(&v, start, to, 255) {
                Some(x) => {
                    out.push(Option::Some(x as u8));
                },
                None => {
                    return Err(elem_err(&elems[i], "u8"));
                },
            }
        }
        i = i + 1;
    }
    Ok(out)
}


fn build_u16(elems: &Vec<SeriesElem>) -> (r: Result<Vec<Option<u16>>, SpanErr>)
    ensures
        r is Ok <==> all_elems_ok(SeriesKind::U16, elems@),
        r matches Ok(v) ==> v@.len() == elems@.len() && (forall|i: int|
            0 <= i < elems@.len() ==> opt_val_is(#[trigger] v@[i], int_slot(elems@[i].text@, "u16"@))),
        r matches Err(e) ==> series_err_at(SeriesKind::U16, elems@, e),
{
    let n = elems.len();
    let mut out: Vec<Option<u16>> = Vec::new();
    let mut i: usize = 0;
    while i < n
        invariant
            i <= n,
            n == elems@.len(),
            out@.len() == i,
            forall|j: int| 0 <= j < i ==> elem_ok(SeriesKind::U16, #[trigger] elems@[j].text@),
            forall|j: int|
                0 <= j < i ==> opt_val_is(#[trigger] out@[j], int_slot(elems@[j].text@, "u16"@)),
        decreases n - i,
    {
        let v = to_chars(elems[i].text.as_str());
        let to = strip_end(&v, "u16");
        let ghost b = strip_sfx(v@, "u16"@);
        if none_slot_exec(&v, to) {
            out.push(Option::None);
        } else {
            if v[0] == '-' {
                return Err(elem_err(&elems[i], "u16"));
            }
            let start: usize = if v[0] == '+' {
                1
            } else {
                0
            };
            proof {
                assert(crate::chars::int_digits(b) =~= v@.subrange(start as int, to as int));
            }
            if start >= to {
                return Err(elem_err(&elems[i], "u16"));
            }
            if !crate::chars::all_digits_range(&v, start, to) {
                return Err(elem_err(&elems[i], "u16"));
            }
            match parse_digits_checked(&v, start, to, 65535) {
                Some(x) => {
                    out.push(Option::Some(x as u16));
                },
                None => {
                    return Err(elem_err(&elems[i], "u16"));
                },
            }
        }
        i = i + 1;
    }
    Ok(out)
}


fn build_u32(elems: &Vec<SeriesElem>) -> (r: Result<Vec<Option<u32>>, SpanErr>)
    ensures
        r is Ok <==> all_elems_ok(SeriesKind::U32, elems@),
        r matches Ok(v) ==> v@.len() == elems@.len() && (forall|i: int|
            0 <= i < elems@.len() ==> opt_val_is(#[trigger] v@[i], int_slot(elems@[i].text@, "u32"@))),
        r matches Err(e) ==> series_err_at(SeriesKind::U32, elems@, e),
{
    let n = elems.len();
    let mut out: Vec<Option<u32>> = Vec::new();
    let mut i: usize = 0;
    while i < n
        invariant
            i <= n,
            n == elems@.len(),
            out@.len() == i,
            forall|j: int| 0 <= j < i ==> elem_ok(SeriesKind::U32, #[trigger] elems@[j].text@),
            forall|j: int|
                0 <= j < i ==> opt_val_is(#[trigger] out@[j], int_slot(elems@[j].text@, "u32"@)),
        decreases n - i,
    {
        let v = to_chars(elems[i].text.as_str());
        let to = strip_end(&v, "u32");
        let ghost b = strip_sfx(v@, "u32"@);
        if none_slot_exec(&v, to) {
            out.push(Option::None);
        } else {
            if v[0] == '-' {
                return Err(elem_err(&elems[i], "u32"));
            }
            let start: usize = if v[0] == '+' {
                1
            } else {
                0
            };
            proof {
                assert(crate::chars::int_digits(b) =~= v@.subrange(start as int, to as int));
            }
            if start >= to {
                return Err(elem_err(&elems[i], "u32"));
            }
            if !crate::chars::all_digits_range(&v, start, to) {
                return Err(elem_err(&elems[i], "u32"));
            }
            match parse_digits_checked(&v, start, to, 0xffff_ffff) {
                Some(x) => {
                    out.push(Option::Some(x as u32));
                },
                None => {
                    return Err(elem_err(&elems[i], "u32"));
                },
            }
        }
        i = i + 1;
    }
    Ok(out)
}


fn build_u64(elems: &Vec<SeriesElem>) -> (r: Result<Vec<Option<u64>>, SpanErr>)
    ensures
        r is Ok <==> all_elems_ok(SeriesKind::U64, elems@),
        r matches Ok(v) ==> v@.len() == elems@.len() && (forall|i: int|
            0 <= i < elems@.len() ==> opt_val_is(#[trigger] v@[i], int_slot(elems@[i].text@, "u64"@))),
        r matches Err(e) ==> series_err_at(SeriesKind::U64, elems@, e),
{
    let n = elems.len();
    let mut out: Vec<Option<u64>> = Vec::new();
    let mut i: usize = 0;
    while i < n
        invariant
            i <= n,
            n == elems@.len(),
            out@.len() == i,
            forall|j: int| 0 <= j < i ==> elem_ok(SeriesKind::U64, #[trigger] elems@[j].text@),
            forall|j: int|
                0 <= j < i ==> opt_val_is(#[trigger] out@[j], int_slot(elems@[j].text@, "u64"@)),
        decreases n - i,
    {
        let v = to_chars(elems[i].text.as_str());
        let to = strip_end(&v, "u64");
        let ghost b = strip_sfx(v@, "u64"@);
        if none_slot_exec(&v, to) {
            out.push(Option::None);
        } else {
            if v[0] == '-' {
                return Err(elem_err(&elems[i], "u64"));
            }
            let start: usize = if v[0] == '+' {
                1
            } else {
                0
            };
            proof {
                assert(crate::chars::int_digits(b) =~= v@.subrange(start as int, to as int));
            }
            if start >= to {
                return Err(elem_err(&elems[i], "u64"));
            }
            if !crate::chars::all_digits_range(&v, start, to) {
                return Err(elem_err(&elems[i], "u64"));
            }
            match parse_digits_checked(&v, start, to, 0xffff_ffff_ffff_ffff) {
                Some(x) => {
                    out.push(Option::Some(x as u64));
                },
                None => {
                    return Err(elem_err(&elems[i], "u64"));
                },
            }
        }
        i = i + 1;
    }
    Ok(out)
}


fn build_i8(elems: &Vec<SeriesElem>) -> (r: Result<Vec<Option<i8>>, SpanErr>)
    ensures
        r is Ok <==> all_elems_ok(SeriesKind::I8, elems@),
        r matches Ok(v) ==> v@.len() == elems@.len() && (forall|i: int|
            0 <= i < elems@.len() ==> opt_val_is_i(
                #[trigger] v@[i],
                int_slot(elems@[i].text@, "i8"@),
            )),
        r matches Err(e) ==> series_err_at(SeriesKind::I8, elems@, e),
{
    let n = elems.len();
    let mut out: Vec<Option<i8>> = Vec::new();
    let mut i: usize = 0;
    while i < n
        invariant
            i <= n,
            n == elems@.len(),
            out@.len() == i,
            forall|j: int| 0 <= j < i ==> elem_ok(SeriesKind::I8, #[trigger] elems@[j].text@),
            forall|j: int|
                0 <= j < i ==> opt_val_is_i(#[trigger] out@[j], int_slot(elems@[j].text@, "i8"@)),
        decreases n - i,
    {
        let v = to_chars(elems[i].text.as_str());
        let to = strip_end(&v, "i8");
        let ghost b = strip_sfx(v@, "i8"@);
        if none_slot_exec(&v, to) {
            out.push(Option::None);
        } else {
            match parse_i64_range(&v, 0, to) {
                Some(x) => {
                    proof {
                        assert(v@.subrange(0, to as int) == b);
                    }
                    if x < -128 || x > 127 {
                        return Err(elem_err(&elems[i], "i8"));
                    }
                    out.push(Option::Some(x as i8));
                },
                None => {
                    proof {
                        assert(v@.subrange(0, to as int) == b);
                    }
                    return Err(elem_err(&elems[i], "i8"));
                },
            }
        }
        i = i + 1;
    }
    Ok(out)
}


fn build_i16(elems: &Vec<SeriesElem>) -> (r: Result<Vec<Option<i16>>, SpanErr>)
    ensures
        r is Ok <==> all_elems_ok(SeriesKind::I16, elems@),
        r matches Ok(v) ==> v@.len() == elems@.len() && (forall|i: int|
            0 <= i < elems@.len() ==> opt_val_is_i(
                #[trigger] v@[i],
                int_slot(elems@[i].text@, "i16"@),
            )),
        r matches Err(e) ==> series_err_at(SeriesKind::I16, elems@, e),
{
    let n = elems.len();
    let mut out: Vec<Option<i16>> = Vec::new();
    let mut i: usize = 0;
    while i < n
        invariant
            i <= n,
            n == elems@.len(),
            out@.len() == i,
            forall|j: int| 0 <= j < i ==> elem_ok(SeriesKind::I16, #[trigger] elems@[j].text@),
            forall|j: int|
                0 <= j < i ==> opt_val_is_i(#[trigger] out@[j], int_slot(elems@[j].text@, "i16"@)),
        decreases n - i,
    {
        let v = to_chars(elems[i].text.as_str());
        let to = strip_end(&v, "i16");
        let ghost b = strip_sfx(v@, "i16"@);
        if none_slot_exec(&v, to) {
            out.push(Option::None);
        } else {
            match parse_i64_range(&v, 0, to) {
                Some(x) => {
                    proof {
                        assert(v@.subrange(0, to as int) == b);
                    }
                    if x < -32768 || x > 32767 {
                        return Err(elem_err(&elems[i], "i16"));
                    }
                    out.push(Option::Some(x as i16));
                },
                None => {
                    proof {
                        assert(v@.subrange(0, to as int) == b);
                    }
                    return Err(elem_err(&elems[i], "i16"));
                },
            }
        }
        i = i + 1;
    }
    Ok(out)
}


fn build_i32(elems: &Vec<SeriesElem>) -> (r: Result<Vec<Option<i32>>, SpanErr>)
    ensures
        r is Ok <==> all_elems_ok(SeriesKind::I32, elems@),
        r matches Ok(v) ==> v@.len() == elems@.len() && (forall|i: int|
            0 <= i < elems@.len() ==> opt_val_is_i(
                #[trigger] v@[i],
                int_slot(elems@[i].text@, "i32"@),
            )),
        r matches Err(e) ==> series_err_at(SeriesKind::I32, elems@, e),
{
    let n = elems.len();
    let mut out: Vec<Option<i32>> = Vec::new();
    let mut i: usize = 0;
    while i < n
        invariant
            i <= n,
            n == elems@.len(),
            out@.len() == i,
            forall|j: int| 0 <= j < i ==> elem_ok(SeriesKind::I32, #[trigger] elems@[j].text@),
            forall|j: int|
                0 <= j < i ==> opt_val_is_i(#[trigger] out@[j], int_slot(elems@[j].text@, "i32"@)),
        decreases n - i,
    {
        let v = to_chars(elems[i].text.as_str());
        let to = strip_end(&v, "i32");
        let ghost b = strip_sfx(v@, "i32"@);
        if none_slot_exec(&v, to) {
            out.push(Option::None);
        } else {
            match parse_i64_range(&v, 0, to) {
                Some(x) => {
                    proof {
                        assert(v@.subrange(0, to as int) == b);
                    }
                    if x < -0x8000_0000 || x > 0x7fff_ffff {
                        return Err(elem_err(&elems[i], "i32"));
                    }
                    out.push(Option::Some(x as i32));
                },
                None => {
                    proof {
                        assert(v@.subrange(0, to as int) == b);
                    }
                    return Err(elem_err(&elems[i], "i32"));
                },
            }
        }
        i = i + 1;
    }
    Ok(out)
}


fn build_i64(elems: &Vec<SeriesElem>) -> (r: Result<Vec<Option<i64>>, SpanErr>)
    ensures
        r is Ok <==> all_elems_ok(SeriesKind::I64, elems@),
        r matches Ok(v) ==> v@.len() == elems@.len() && (forall|i: int|
            0 <= i < elems@.len() ==> opt_val_is_i(
                #[trigger] v@[i],
                int_slot(elems@[i].text@, "i64"@),
            )),
        r matches Err(e) ==> series_err_at(SeriesKind::I64, elems@, e),
{
    let n = elems.len();
    let mut out: Vec<Option<i64>> = Vec::new();
    let mut i: usize = 0;
    while i < n
        invariant
            i <= n,
            n == elems@.len(),
            out@.len() == i,
            forall|j: int| 0 <= j < i ==> elem_ok(SeriesKind::I64, #[trigger] elems@[j].text@),
            forall|j: int|
                0 <= j < i ==> opt_val_is_i(#[trigger] out@[j], int_slot(elems@[j].text@, "i64"@)),
        decreases n - i,
    {
        let v = to_chars(elems[i].text.as_str());
        let to = strip_end(&v, "i64");
        let ghost b = strip_sfx(v@, "i64"@);
        if none_slot_exec(&v, to) {
            out.push(Option::None);
        } else {
            match parse_i64_range(&v, 0, to) {
                Some(x) => {
                    proof {
                        assert(v@.subrange(0, to as int) == b);
                    }
                    if x < -0x8000_0000_0000_0000 || x > 0x7fff_ffff_ffff_ffff {
                        return Err(elem_err(&elems[i], "i64"));
                    }
                    out.push(Option::Some(x as i64));
                },
                None => {
                    proof {
                        assert(v@.subrange(0, to as int) == b);
                    }
                    return Err(elem_err(&elems[i], "i64"));
                },
            }
        }
        i = i + 1;
    }
    Ok(out)
}


fn build_date(elems: &Vec<SeriesElem>) -> (r: Result<Vec<i32>, SpanErr>)
    ensures
        r is Ok <==> all_elems_ok(SeriesKind::Date, elems@),
        r matches Ok(v) ==> v@.len() == elems@.len() && (forall|i: int|
            0 <= i < elems@.len() ==> #[trigger] v@[i] as int == date_value(elems@[i].text@)),
        r matches Err(e) ==> series_err_at(SeriesKind::Date, elems@, e),
{
    let n = elems.len();
    let mut out: Vec<i32> = Vec::new();
    let mut i: usize = 0;
    while i < n
        invariant
            i <= n,
            n == elems@.len(),
            out@.len() == i,
            forall|j: int| 0 <= j < i ==> elem_ok(SeriesKind::Date, #[trigger] elems@[j].text@),
            forall|j: int| 0 <= j < i ==> #[trigger] out@[j] as int == date_value(elems@[j].text@),
        decreases n - i,
    {
        match parse_date(elems[i].text.as_str()) {
            Ok(x) => {
                out.push(x);
            },
            Err(_) => {
                return Err(elem_err(&elems[i], "date"));
            },
        }
        i = i + 1;
    }
    Ok(out)
}


fn build_time(elems: &Vec<SeriesElem>) -> (r: Result<Vec<i64>, SpanErr>)
    ensures
        r is Ok <==> all_elems_ok(SeriesKind::Time, elems@),
        r matches Ok(v) ==> v@.len() == elems@.len() && (forall|i: int|
            0 <= i < elems@.len() ==> #[trigger] v@[i] as int == time_value(elems@[i].text@)),
        r matches Err(e) ==> series_err_at(SeriesKind::Time, elems@, e),
{
    let n = elems.len();
    let mut out: Vec<i64> = Vec::new();
    let mut i: usize = 0;
    while i < n
        invariant
            i <= n,
            n == elems@.len(),
            out@.len() == i,
            forall|j: int| 0 <= j < i ==> elem_ok(SeriesKind::Time, #[trigger] elems@[j].text@),
            forall|j: int| 0 <= j < i ==> #[trigger] out@[j] as int == time_value(elems@[j].text@),
        decreases n - i,
    {
        match parse_time(elems[i].text.as_str()) {
            Ok(x) => {
                out.push(x);
            },
            Err(_) => {
                return Err(elem_err(&elems[i], "time"));
            },
        }
        i = i + 1;
    }
    Ok(out)
}


fn build_datetime(elems: &Vec<SeriesElem>) -> (r: Result<Vec<i64>, SpanErr>)
    ensures
        r is Ok <==> all_elems_ok(SeriesKind::Datetime, elems@),
        r matches Ok(v) ==> v@.len() == elems@.len() && (forall|i: int|
            0 <= i < elems@.len() ==> #[trigger] v@[i] as int == datetime_value(elems@[i].text@)),
        r matches Err(e) ==> series_err_at(SeriesKind::Datetime, elems@, e),
{
    let n = elems.len();
    let mut out: Vec<i64> = Vec::new();
    let mut i: usize = 0;
    while i < n
        invariant
            i <= n,
            n == elems@.len(),
            out@.len() == i,
            forall|j: int| 0 <= j < i ==> elem_ok(SeriesKind::Datetime, #[trigger] elems@[j].text@),
            forall|j: int| 0 <= j < i ==> #[trigger] out@[j] as int == datetime_value(elems@[j].text@),
        decreases n - i,
    {
        match parse_datetime(elems[i].text.as_str()) {
            Ok(x) => {
                out.push(x);
            },
            Err(_) => {
                return Err(elem_err(&elems[i], "datetime"));
            },
        }
        i = i + 1;
    }
    Ok(out)
}


fn build_timestamp(elems: &Vec<SeriesElem>) -> (r: Result<Vec<i64>, SpanErr>)
    ensures
        r is Ok <==> all_elems_ok(SeriesKind::Timestamp, elems@),
        r matches Ok(v) ==> v@.len() == elems@.len() && (forall|i: int|
            0 <= i < elems@.len() ==> #[trigger] v@[i] as int == timestamp_value(elems@[i].text@)),
        r matches Err(e) ==> series_err_at(SeriesKind::Timestamp, elems@, e),
{
    let n = elems.len();
    let mut out: Vec<i64> = Vec::new();
    let mut i: usize = 0;
    while i < n
        invariant
            i <= n,
            n == elems@.len(),
            out@.len() == i,
            forall|j: int| 0 <= j < i ==> elem_ok(SeriesKind::Timestamp, #[trigger] elems@[j].text@),
            forall|j: int| 0 <= j < i ==> #[trigger] out@[j] as int == timestamp_value(elems@[j].text@),
        decreases n - i,
    {
        match parse_timestamp(elems[i].text.as_str()) {
            Ok(x) => {
                out.push(x);
            },
            Err(_) => {
                return Err(elem_err(&elems[i], "timestamp"));
            },
        }
        i = i + 1;
    }
    Ok(out)
}


fn build_duration(elems: &Vec<SeriesElem>) -> (r: Result<Vec<i64>, SpanErr>)
    ensures
        r is Ok <==> all_elems_ok(SeriesKind::Duration, elems@),
        r matches Ok(v) ==> v@.len() == elems@.len() && (forall|i: int|
            0 <= i < elems@.len() ==> #[trigger] v@[i] as int == dur_value(elems@[i].text@)),
        r matches Err(e) ==> series_err_at(SeriesKind::Duration, elems@, e),
{
    let n = elems.len();
    let mut out: Vec<i64> = Vec::new();
    let mut i: usize = 0;
    while i < n
        invariant
            i <= n,
            n == elems@.len(),
            out@.len() == i,
            forall|j: int| 0 <= j < i ==> elem_ok(SeriesKind::Duration, #[trigger] elems@[j].text@),
            forall|j: int| 0 <= j < i ==> #[trigger] out@[j] as int == dur_value(elems@[j].text@),
        decreases n - i,
    {
        match parse_duration(elems[i].text.as_str()) {
            Ok(x) => {
                out.push(x);
            },
            Err(_) => {
                return Err(elem_err(&elems[i], "duration"));
            },
        }
        i = i + 1;
    }
    Ok(out)
}

fn build_bool(elems: &Vec<SeriesElem>) -> (r: Result<Vec<Option<bool>>, SpanErr>)
    ensures
        r is Ok <==> all_elems_ok(SeriesKind::Bool, elems@),
        r matches Ok(v) ==> v@.len() == elems@.len() && (forall|i: int|
            0 <= i < elems@.len() ==> #[trigger] v@[i] == bool_slot(elems@[i].text@)),
        r matches Err(e) ==> series_err_at(SeriesKind::Bool, elems@, e),
{
    let n = elems.len();
    let mut out: Vec<Option<bool>> = Vec::new();
    let mut i: usize = 0;
    while i < n
        invariant
            i <= n,
            n == elems@.len(),
            out@.len() == i,
            forall|j: int| 0 <= j < i ==> elem_ok(SeriesKind::Bool, #[trigger] elems@[j].text@),
            forall|j: int| 0 <= j < i ==> #[trigger] out@[j] == bool_slot(elems@[j].text@),
        decreases n - i,
    {
        let v = to_chars(elems[i].text.as_str());
        let m = v.len();
        if range_eq_str(&v, 0, m, "true") {
            out.push(Option::Some(true));
        } else if range_eq_str(&v, 0, m, "false") {
            out.push(Option::Some(false));
        } else if none_slot_exec(&v, m) {
            proof {
                assert(v@.subrange(0, m as int) =~= v@);
            }
            out.push(Option::None);
        } else {
            proof {
                assert(v@.subrange(0, m as int) =~= v@);
            }
            return Err(elem_err(&elems[i], "bool"));
        }
        proof {
            assert(v@.subrange(0, m as int) =~= v@);
        }
        i = i + 1;
    }
    Ok(out)
}

fn build_dec(elems: &Vec<SeriesElem>, suf: &str, thirty_two: bool) -> (r: Result<
    Vec<Option<Dec>>,
    SpanErr,
>)
    requires
        thirty_two ==> suf@ == "f32"@,
        !thirty_two ==> suf@ == "f64"@,
    ensures
        ({
            let k = if thirty_two {
                SeriesKind::F32
            } else {
                SeriesKind::F64
            };
            &&& (r is Ok <==> all_elems_ok(k, elems@))
            &&& (r matches Ok(v) ==> v@.len() == elems@.len() && (forall|i: int|
                0 <= i < elems@.len() ==> #[trigger] v@[i] == dec_slot(elems@[i].text@, suf@)))
            &&& (r matches Err(e) ==> series_err_at(k, elems@, e))
        }),
{
    let ghost k = if thirty_two {
        SeriesKind::F32
    } else {
        SeriesKind::F64
    };
    let n = elems.len();
    let mut out: Vec<Option<Dec>> = Vec::new();
    let mut i: usize = 0;
    while i < n
        invariant
            i <= n,
            n == elems@.len(),
            out@.len() == i,
            thirty_two ==> suf@ == "f32"@,
            !thirty_two ==> suf@ == "f64"@,
            k == if thirty_two {
                SeriesKind::F32
            } else {
                SeriesKind::F64
            },
            forall|j: int| 0 <= j < i ==> elem_ok(k, #[trigger] elems@[j].text@),
            forall|j: int| 0 <= j < i ==> #[trigger] out@[j] == dec_slot(elems@[j].text@, suf@),
        decreases n - i,
    {
        let v = to_chars(elems[i].text.as_str());
        let to = strip_end(&v, suf);
        if none_slot_exec(&v, to) {
            out.push(Option::None);
        } else {
            match crate::dec::parse_dec_range(&v, 0, to) {
                Some(d) => {
                    proof {
                        assert(v@.subrange(0, to as int) == strip_sfx(v@, suf@));
                    }
                    out.push(Option::Some(d));
                },
                None => {
                    proof {
                        assert(v@.subrange(0, to as int) == strip_sfx(v@, suf@));
                    }
                    return Err(elem_err(&elems[i], "decimal"));
                },
            }
        }
        i = i + 1;
    }
    Ok(out)
}

fn build_symbol(elems: &Vec<SeriesElem>) -> (r: Result<Vec<String>, SpanErr>)
    ensures
        r is Ok <==> all_elems_ok(SeriesKind::Symbol, elems@),
        r matches Ok(v) ==> v@.len() == elems@.len() && (forall|i: int|
            0 <= i < elems@.len() ==> #[trigger] v@[i]@ == sym_text(elems@[i].text@)),
        r matches Err(e) ==> series_err_at(SeriesKind::Symbol, elems@, e),
{
    let n = elems.len();
    let mut out: Vec<String> = Vec::new();
    let mut i: usize = 0;
    while i < n
        invariant
            i <= n,
            n == elems@.len(),
            out@.len() == i,
            forall|j: int| 0 <= j < i ==> elem_ok(SeriesKind::Symbol, #[trigger] elems@[j].text@),
            forall|j: int| 0 <= j < i ==> #[trigger] out@[j]@ == sym_text(elems@[j].text@),
        decreases n - i,
    {
        let t = &elems[i].text;
        let v = to_chars(t.as_str());
        let m = v.len();
        if !(m >= 1 && v[0] == '`' && (m <= 2 || crate::classify::no_char_in(&v, 1, m - 1, '`'))) {
            return Err(elem_err(&elems[i], "symbol"));
        }
        let inner = if m >= 2 && v[m - 1] == '`' {
            crate::chars::string_from_range(t.as_str(), 1, m - 1)
        } else {
            crate::chars::string_from_range(t.as_str(), 1, m)
        };
        out.push(inner);
        i = i + 1;
    }
    Ok(out)
}

fn build_str(elems: &Vec<SeriesElem>) -> (r: Result<Vec<String>, SpanErr>)
    ensures
        r is Ok <==> all_elems_ok(SeriesKind::Str, elems@),
        r matches Ok(v) ==> v@.len() == elems@.len() && (forall|i: int|
            0 <= i < elems@.len() ==> #[trigger] v@[i]@ == str_text(elems@[i].text@)),
        r matches Err(e) ==> series_err_at(SeriesKind::Str, elems@, e),
{
    let n = elems.len();
    let mut out: Vec<String> = Vec::new();
    let mut i: usize = 0;
    while i < n
        invariant
            i <= n,
            n == elems@.len(),
            out@.len() == i,
            forall|j: int| 0 <= j < i ==> elem_ok(SeriesKind::Str, #[trigger] elems@[j].text@),
            forall|j: int| 0 <= j < i ==> #[trigger] out@[j]@ == str_text(elems@[j].text@),
        decreases n - i,
    {
        let t = &elems[i].text;
        let v = to_chars(t.as_str());
        let m = v.len();
        if !(m >= 2 && v[0] == '"' && v[m - 1] == '"' && (m <= 2 || crate::classify::no_char_in(
            &v,
            1,
            m - 1,
            '"',
        ))) {
            return Err(elem_err(&elems[i], "string"));
        }
        let inner = crate::chars::string_from_range(t.as_str(), 1, m - 1);
        out.push(inner);
        i = i + 1;
    }
    Ok(out)
}

/// Builds the series a literal denotes. The kind comes from the first
/// element's lexeme alone; every element is then parsed with that kind's
/// parser, and the first non-conforming element fails the whole literal at
/// its own offset. A first lexeme no rule matches yields an all-null series
/// of the element count.
pub fn series_from_elems(elems: &Vec<SeriesElem>) -> (r: Result<Series, SpanErr>)
    ensures
        ({
            let k = series_kind_of(elems@);
            &&& (r is Ok <==> all_elems_ok(k, elems@))
            &&& (r matches Ok(s) ==> s.name@ == Seq::<char>::empty() && series_content(
                k,
                elems@,
                s.data,
            ))
            &&& (r matches Err(e) ==> series_err_at(k, elems@, e))
        }),
{
    let k = if elems.len() == 0 {
        SeriesKind::F64
    } else {
        let v0 = to_chars(elems[0].text.as_str());
        classify(&v0)
    };
    match k {
        SeriesKind::Bool => match build_bool(elems) {
            Ok(v) => Ok(Series { name: String::new(), data: SeriesData::Bool(v) }),
            Err(e) => Err(e),
        },
        SeriesKind::U8 => match build_u8(elems) {
            Ok(v) => Ok(Series { name: String::new(), data: SeriesData::U8(v) }),
            Err(e) => Err(e),
        },
        SeriesKind::I8 => match build_i8(elems) {
            Ok(v) => Ok(Series { name: String::new(), data: SeriesData::I8(v) }),
            Err(e) => Err(e),
        },
        SeriesKind::U16 => match build_u16(elems) {
            Ok(v) => Ok(Series { name: String::new(), data: SeriesData::U16(v) }),
            Err(e) => Err(e),
        },
        SeriesKind::I16 => match build_i16(elems) {
            Ok(v) => Ok(Series { name: String::new(), data: SeriesData::I16(v) }),
            Err(e) => Err(e),
        },
        SeriesKind::U32 => match build_u32(elems) {
            Ok(v) => Ok(Series { name: String::new(), data: SeriesData::U32(v) }),
            Err(e) => Err(e),
        },
        SeriesKind::I32 => match build_i32(elems) {
            Ok(v) => Ok(Series { name: String::new(), data: SeriesData::I32(v) }),
            Err(e) => Err(e),
        },
        SeriesKind::U64 => match build_u64(elems) {
            Ok(v) => Ok(Series { name: String::new(), data: SeriesData::U64(v) }),
            Err(e) => Err(e),
        },
        SeriesKind::I64 => match build_i64(elems) {
            Ok(v) => Ok(Series { name: String::new(), data: SeriesData::I64(v) }),
            Err(e) => Err(e),
        },
        SeriesKind::F32 => match build_dec(elems, "f32", true) {
            Ok(v) => Ok(Series { name: String::new(), data: SeriesData::F32(v) }),
            Err(e) => Err(e),
        },
        SeriesKind::F64 => match build_dec(elems, "f64", false) {
            Ok(v) => Ok(Series { name: String::new(), data: SeriesData::F64(v) }),
            Err(e) => Err(e),
        },
        SeriesKind::Date => match build_date(elems) {
            Ok(v) => Ok(Series { name: String::new(), data: SeriesData::Date(v) }),
            Err(e) => Err(e),
        },
        SeriesKind::Time => match build_time(elems) {
            Ok(v) => Ok(Series { name: String::new(), data: SeriesData::Time(v) }),
            Err(e) => Err(e),
        },
        SeriesKind::Datetime => match build_datetime(elems) {
            Ok(v) => Ok(Series { name: String::new(), data: SeriesData::Datetime(v) }),
            Err(e) => Err(e),
        },
        SeriesKind::Timestamp => match build_timestamp(elems) {
            Ok(v) => Ok(Series { name: String::new(), data: SeriesData::Timestamp(v) }),
            Err(e) => Err(e),
        },
        SeriesKind::Duration => match build_duration(elems) {
            Ok(v) => Ok(Series { name: String::new(), data: SeriesData::Duration(v) }),
            Err(e) => Err(e),
        },
        SeriesKind::Symbol => match build_symbol(elems) {
            Ok(v) => Ok(Series { name: String::new(), data: SeriesData::Symbol(v) }),
            Err(e) => Err(e),
        },
        SeriesKind::Str => match build_str(elems) {
            Ok(v) => Ok(Series { name: String::new(), data: SeriesData::Str(v) }),
            Err(e) => Err(e),
        },
        SeriesKind::Null => Ok(Series { name: String::new(), data: SeriesData::Null(elems.len()) }),
    }
}

} // verus!
