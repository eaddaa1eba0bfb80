//! Error types of the library and the caret-diagnostic position tracer.

use vstd::prelude::*;

use crate::chars::{dec_str, fmt_u64, spaces, string_from_range, to_chars};

verus! {

broadcast use vstd::std_specs::vec::group_vec_axioms, vstd::seq::group_seq_axioms;

/// Structured error of the library.
#[derive(Debug)]
pub enum JError {
    Error(String),
    ParserErr(String),
    MismatchedTypeErr(String, String),
    MismatchedLengthErr(usize, usize),
}

impl JError {
    /// Human-readable message of the error.
    pub fn message(&self) -> (r: String)
        ensures
            match self {
                JError::Error(s) => r@ == s@,
                JError::ParserErr(s) => r@ == "Parser err: "@ + s@,
                JError::MismatchedTypeErr(a, b) => r@ == "Failed to refer "@ + a@ + " from "@
                    + b@,
                JError::MismatchedLengthErr(a, b) => r@ == "Length error '"@ + dec_str(
                    *a as nat,
                ) + "' vs '"@ + dec_str(*b as nat) + "'"@,
            },
    {
        match self {
            JError::Error(s) => s.clone(),
            JError::ParserErr(s) => {
                let mut m = String::new();
                m.append("Parser err: ");
                m.append(s.as_str());
                assert(m@ =~= "Parser err: "@ + s@);
                m
            },
            JError::MismatchedTypeErr(a, b) => {
                let mut m = String::new();
                m.append("Failed to refer ");
                m.append(a.as_str());
                m.append(" from ");
                m.append(b.as_str());
                assert(m@ =~= "Failed to refer "@ + a@ + " from "@ + b@);
                m
            },
            JError::MismatchedLengthErr(a, b) => {
                let mut m = String::new();
                m.append("Length error '");
                let fa = fmt_u64(*a as u64);
                m.append(fa.as_str());
                m.append("' vs '");
                let fb = fmt_u64(*b as u64);
                m.append(fb.as_str());
                m.append("'");
                assert(m@ =~= "Length error '"@ + dec_str(*a as nat) + "' vs '"@ + dec_str(
                    *b as nat,
                ) + "'"@);
                m
            },
        }
    }

    /// Whether this error is of the dedicated parse-error kind.
    pub fn is_parse_error(&self) -> (r: bool)
        ensures
            r == (self is ParserErr),
    {
        match self {
            JError::ParserErr(_) => true,
            _ => false,
        }
    }
}

/// An error carrying a message and the byte offset in the source unit that
/// produced it.
#[derive(Debug)]
pub struct SpanErr {
    pub msg: String,
    pub pos: usize,
}

/// Builds a span-tagged error.
pub fn raise_error(msg: String, pos: usize) -> (r: SpanErr)
    ensures
        r.msg == msg,
        r.pos == pos,
{
    SpanErr { msg, pos }
}

/// Host-facing error kind: a library error, or a failure of the embedding
/// host itself.
#[derive(Debug)]
pub enum JasmineErr {
    JasmineError(JError),
    PythonError(String),
}

impl JasmineErr {
    /// The host shows parse errors differently; this makes the distinction
    /// observable.
    pub fn is_parse_error(&self) -> (r: bool)
        ensures
            r == (self matches JasmineErr::JasmineError(e) && e is ParserErr),
    {
        match self {
            JasmineErr::JasmineError(e) => e.is_parse_error(),
            JasmineErr::PythonError(_) => false,
        }
    }
}

impl core::convert::From<JError> for JasmineErr {
    fn from(e: JError) -> (r: JasmineErr) {
        JasmineErr::JasmineError(e)
    }
}

impl vstd::std_specs::convert::FromSpecImpl<JError> for JasmineErr {
    open spec fn obeys_from_spec() -> bool {
        true
    }

    open spec fn from_spec(e: JError) -> JasmineErr {
        JasmineErr::JasmineError(e)
    }
}

/// Encoded byte width of one character in UTF-8.
pub open spec fn char_blen(c: char) -> int {
    if (c as u32) < 0x80 {
        1
    } else if (c as u32) < 0x800 {
        2
    } else if (c as u32) < 0x10000 {
        3
    } else {
        4
    }
}

/// Byte length of the UTF-8 encoding of `s`.
pub open spec fn blen(s: Seq<char>) -> int
    decreases s.len(),
{
    if s.len() == 0 {
        0
    } else {
        blen(s.drop_last()) + char_blen(s.last())
    }
}

pub proof fn lemma_blen_take_succ(s: Seq<char>, i: int)
    requires
        0 <= i < s.len(),
    ensures
        blen(s.take(i + 1)) == blen(s.take(i)) + char_blen(s[i]),
{
    let t = s.take(i + 1);
    assert(t.drop_last() =~= s.take(i));
}

pub proof fn lemma_blen_bounds(s: Seq<char>)
    ensures
        s.len() <= blen(s) <= 4 * s.len(),
    decreases s.len(),
{
    if s.len() > 0 {
        lemma_blen_bounds(s.drop_last());
    }
}

pub proof fn lemma_blen_take_monotone(s: Seq<char>, i: int)
    requires
        0 <= i <= s.len(),
    ensures
        blen(s.take(i)) <= blen(s),
        blen(s.take(i)) >= i,
    decreases s.len() - i,
{
    lemma_blen_bounds(s.take(i));
    if i == s.len() {
        assert(s.take(i) =~= s);
    } else {
        lemma_blen_take_succ(s, i);
        lemma_blen_take_monotone(s, i + 1);
    }
}

/// Scanning state of the position tracer: consumes characters while the byte
/// position is below `pos`, counting 1-based row and column and the start of
/// the containing line. Returns (row, column, line start, stop index), the
/// last two as character indices.
pub open spec fn trace_scan_from(
    s: Seq<char>,
    pos: int,
    k: int,
    b: int,
    r: int,
    c: int,
    sc: int,
) -> (int, int, int, int)
    decreases s.len() - k,
{
    if b >= pos || k < 0 || k >= s.len() {
        (r, c, sc, k)
    } else if s[k] == '\r' && k + 1 < s.len() && s[k + 1] == '\n' {
        trace_scan_from(s, pos, k + 2, b + 2, r + 1, 1, k + 2)
    } else if s[k] == '\n' {
        trace_scan_from(s, pos, k + 1, b + 1, r + 1, 1, k + 1)
    } else {
        trace_scan_from(s, pos, k + 1, b + char_blen(s[k]), r, c + 1, sc)
    }
}

pub open spec fn trace_scan(s: Seq<char>, pos: int) -> (int, int, int, int) {
    trace_scan_from(s, pos, 0, 0, 1, 1, 0)
}

/// First line break at or after `k`, as a character index.
pub open spec fn line_break_at(s: Seq<char>, k: int) -> int
    decreases s.len() - k,
{
    if k < 0 || k >= s.len() {
        s.len() as int
    } else if s[k] == '\n' || s[k] == '\r' {
        k
    } else {
        line_break_at(s, k + 1)
    }
}

/// The rendered caret diagnostic: a header with the path and 1-based
/// row/column, the source line, a caret under the offending column, and the
/// message.
pub open spec fn trace_rendering(
    s: Seq<char>,
    path: Seq<char>,
    pos: int,
    msg: Seq<char>,
) -> Seq<char> {
    let (r, c, sc, k) = trace_scan(s, pos);
    let e = line_break_at(s, k);
    "--> "@ + path + dec_str(r as nat) + ":"@ + dec_str(c as nat) + "\n\n"@ + s.subrange(sc, e)
        + "\n"@ + Seq::new((c - 1) as nat, |i: int| ' ') + "^\n\n= "@ + msg
}

proof fn lemma_trace_scan_ranges(s: Seq<char>, pos: int, k: int, b: int, r: int, c: int, sc: int)
    requires
        0 <= k <= s.len(),
        0 <= sc <= k,
        1 <= r,
        1 <= c,
        r <= k + 1,
        c <= k + 1,
    ensures
        ({
            let (r2, c2, sc2, k2) = trace_scan_from(s, pos, k, b, r, c, sc);
            &&& 1 <= r2 <= s.len() + 1
            &&& 1 <= c2 <= s.len() + 1
            &&& 0 <= sc2 <= k2 <= s.len()
        }),
    decreases s.len() - k,
{
    if b >= pos || k < 0 || k >= s.len() {
    } else if s[k] == '\r' && k + 1 < s.len() && s[k + 1] == '\n' {
        lemma_trace_scan_ranges(s, pos, k + 2, b + 2, r + 1, 1, k + 2);
    } else if s[k] == '\n' {
        lemma_trace_scan_ranges(s, pos, k + 1, b + 1, r + 1, 1, k + 1);
    } else {
        lemma_trace_scan_ranges(s, pos, k + 1, b + char_blen(s[k]), r, c + 1, sc);
    }
}

/// Maps a byte offset in `source` to a 1-based row and column, counting
/// Unicode scalar values for the column and treating `\r\n` as one break,
/// and renders the caret diagnostic for `msg`.
pub fn trace(source: &str, path: &str, pos: usize, msg: &str) -> (out: String)
    requires
        pos <= blen(source@),
        blen(source@) < usize::MAX,
    ensures
        out@ == trace_rendering(source@, path@, pos as int, msg@),
{
    let v = to_chars(source);
    let n = v.len();
    proof {
        lemma_blen_bounds(source@);
    }
    let mut k: usize = 0;
    let mut b: usize = 0;
    let mut r: usize = 1;
    let mut c: usize = 1;
    let mut sc: usize = 0;
    while b < pos && k < n
        invariant
            v@ == source@,
            n == v@.len(),
            pos <= blen(source@),
            blen(source@) < usize::MAX,
            0 <= k <= n,
            0 <= sc <= k,
            1 <= r <= k + 1,
            1 <= c <= k + 1,
            b == blen(source@.take(k as int)),
            trace_scan(source@, pos as int) == trace_scan_from(
                source@,
                pos as int,
                k as int,
                b as int,
                r as int,
                c as int,
                sc as int,
            ),
        decreases n - k,
    {
        proof {
            lemma_blen_take_succ(source@, k as int);
            lemma_blen_take_monotone(source@, k + 1);
            lemma_blen_bounds(source@);
        }
        let ch = v[k];
        if ch == '\r' && k + 1 < n && v[k + 1] == '\n' {
            proof {
                lemma_blen_take_succ(source@, k + 1);
                lemma_blen_take_monotone(source@, k + 2);
            }
            k = k + 2;
            b = b + 2;
            r = r + 1;
            c = 1;
            sc = k;
        } else if ch == '\n' {
            k = k + 1;
            b = b + 1;
            r = r + 1;
            c = 1;
            sc = k;
        } else {
            let w: usize = if (ch as u32) < 0x80 {
                1
            } else if (ch as u32) < 0x800 {
                2
            } else if (ch as u32) < 0x10000 {
                3
            } else {
                4
            };
            k = k + 1;
            b = b + w;
            c = c + 1;
        }
    }
    proof {
        lemma_trace_scan_ranges(
            source@,
            pos as int,
            k as int,
            b as int,
            r as int,
            c as int,
            sc as int,
        );
    }
    proof {
        assert(trace_scan_from(
            source@,
            pos as int,
            k as int,
            b as int,
            r as int,
            c as int,
            sc as int,
        ) == (r as int, c as int, sc as int, k as int));
    }
    let mut e: usize = k;
    while e < n && v[e] != '\n' && v[e] != '\r'
        invariant
            v@ == source@,
            n == v@.len(),
            k <= e <= n,
            line_break_at(source@, k as int) == line_break_at(source@, e as int),
        decreases n - e,
    {
        e = e + 1;
    }
    proof {
        if e < n {
            assert(line_break_at(source@, e as int) == e as int);
        } else {
            assert(line_break_at(source@, e as int) == n as int);
        }
    }
    let mut out = String::new();
    out.append("--> ");
    out.append(path);
    let fr = fmt_u64(r as u64);
    out.append(fr.as_str());
    out.append(":");
    let fc = fmt_u64(c as u64);
    out.append(fc.as_str());
    out.append("\n\n");
    let line = string_from_range(source, sc, e);
    out.append(line.as_str());
    out.append("\n");
    let pad = spaces(c - 1);
    out.append(pad.as_str());
    out.append("^\n\n= ");
    out.append(msg);
    proof {
        assert(out@ =~= trace_rendering(source@, path@, pos as int, msg@));
    }
    out
}

/// Renders the caret diagnostic for a host that shows it directly.
pub fn print_trace(source: &str, path: &str, pos: usize, msg: &str) -> (out: String)
    requires
        pos <= blen(source@),
        blen(source@) < usize::MAX,
    ensures
        out@ == trace_rendering(source@, path@, pos as int, msg@),
{
    trace(source, path, pos, msg)
}

} // verus!
