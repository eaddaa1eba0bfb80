//! The concrete syntax layer: rule tags, syntax nodes and the tokenizer.
//! The walker consumes the typed, nested syntax nodes this layer produces.

use vstd::prelude::*;

use crate::errors::{blen, lemma_blen_take_succ, SpanErr};

verus! {

broadcast use vstd::std_specs::vec::group_vec_axioms, vstd::seq::group_seq_axioms;

/// Tag of a syntax node.
#[derive(Clone, Copy, PartialEq, Eq, Structural, Debug)]
pub enum Rule {
    Program,
    Exp,
    AssignmentExp,
    UnaryExp,
    BinaryExp,
    BinaryOp,
    BinaryId,
    Integer,
    Boolean,
    Decimal,
    Date,
    Time,
    Datetime,
    Timestamp,
    Duration,
    Str,
    Enum,
    NoneLit,
    Series,
    Unknown,
    Id,
    Fn,
    Params,
    FnCall,
    Arg,
    Skip,
    IfExp,
    WhileExp,
    TryExp,
    ReturnExp,
    RaiseExp,
    Dataframe,
    Matrix,
    SqlExp,
    FromExp,
    FilterExp,
    GroupExp,
    SelectOp,
    UpdateOp,
    DeleteOp,
    SortOp,
    SortName,
    TakeOp,
    SeriesExp,
    RenameSeriesExp,
    SeriesName,
    BracketExp,
    Statements,
    List,
    Dict,
    KeyValueExp,
}

/// A typed, nested syntax node: rule tag, matched text, byte offset of its
/// start, and child nodes.
#[derive(Debug)]
pub struct SyntaxNode {
    pub rule: Rule,
    pub text: String,
    pub start: usize,
    pub children: Vec<SyntaxNode>,
}

/// A syntax node decreases to each of its children.
pub proof fn lemma_child_smaller(n: SyntaxNode, i: int)
    requires
        0 <= i < n.children@.len(),
    ensures
        decreases_to!(n => n.children@[i]),
{
    assert(decreases_to!(n => n.children));
    assert(decreases_to!(n.children => n.children@));
    assert(decreases_to!(n.children@ => n.children@[i]));
}

/// Kind of a token.
#[derive(Clone, Copy, PartialEq, Eq, Structural, Debug)]
pub enum Tok {
    LParen,
    RParen,
    LBracket,
    RBracket,
    LBrace,
    RBrace,
    Comma,
    Semi,
    Colon,
    OpTok,
    DotId,
    IdTok,
    IntLit,
    DecLit,
    BoolLit,
    DateLit,
    TimeLit,
    DatetimeLit,
    TimestampLit,
    DurationLit,
    SymLit,
    StrLit,
}

/// One token: kind and the character span it covers.
#[derive(Debug)]
pub struct Token {
    pub kind: Tok,
    pub cstart: usize,
    pub cend: usize,
}

fn is_space(c: char) -> (r: bool) {
    c == ' ' || c == '\t' || c == '\r' || c == '\n'
}

fn is_alpha(c: char) -> (r: bool) {
    ('a' <= c && c <= 'z') || ('A' <= c && c <= 'Z')
}

fn is_id_start(c: char) -> (r: bool) {
    is_alpha(c) || c == '_'
}

fn is_id_cont(c: char) -> (r: bool) {
    is_alpha(c) || crate::chars::digit_check(c) || c == '_' || c == '.'
}

fn is_op_char(c: char) -> (r: bool) {
    c == '+' || c == '-' || c == '*' || c == '/' || c == '%' || c == '!' || c == '<' || c == '>'
        || c == '=' || c == '&' || c == '|' || c == '^' || c == '~' || c == '#' || c == '?' || c
        == '@' || c == '$'
}

fn is_sym_end(c: char) -> (r: bool) {
    is_space(c) || c == ',' || c == ']' || c == ')' || c == '}' || c == ';' || c == '(' || c == '['
        || c == '{' || c == '`'
}

/// Byte offset of every character position: entry `i` is the byte length of
/// the first `i` characters.
pub fn byte_offsets(v: &Vec<char>) -> (r: Vec<usize>)
    requires
        blen(v@) < usize::MAX,
    ensures
        r@.len() == v@.len() + 1,
        forall|i: int| 0 <= i <= v@.len() ==> #[trigger] r@[i] == blen(v@.take(i)),
{
    let n = v.len();
    let mut r: Vec<usize> = Vec::new();
    let mut b: usize = 0;
    proof {
        assert(v@.take(0) =~= Seq::<char>::empty());
    }
    r.push(0);
    let mut i: usize = 0;
    while i < n
        invariant
            i <= n,
            n == v@.len(),
            blen(v@) < usize::MAX,
            r@.len() == i + 1,
            b == blen(v@.take(i as int)),
            forall|k: int| 0 <= k <= i ==> #[trigger] r@[k] == blen(v@.take(k)),
        decreases n - i,
    {
        proof {
            lemma_blen_take_succ(v@, i as int);
            crate::errors::lemma_blen_take_monotone(v@, i + 1);
        }
        let c = v[i];
        let w: usize = if (c as u32) < 0x80 {
            1
        } else if (c as u32) < 0x800 {
            2
        } else if (c as u32) < 0x10000 {
            3
        } else {
            4
        };
        b = b + w;
        r.push(b);
        i = i + 1;
    }
    r
}

/// End of a `HH:MM:SS[.digits]` run starting at `i`, if one starts there.
fn match_time_tail(v: &Vec<char>, i: usize) -> (r: Option<usize>)
    requires
        i <= v@.len(),
    ensures
        r matches Some(e) ==> i < e <= v@.len(),
{
    let n = v.len();
    if n - i < 8 {
        return None;
    }
    if !(crate::chars::digit_check(v[i]) && crate::chars::digit_check(v[i + 1]) && v[i + 2] == ':'
        && crate::chars::digit_check(v[i + 3]) && crate::chars::digit_check(v[i + 4]) && v[i + 5]
        == ':' && crate::chars::digit_check(v[i + 6]) && crate::chars::digit_check(v[i + 7])) {
        return None;
    }
    let mut e = i + 8;
    if e < n && v[e] == '.' {
        e = e + 1;
        e = crate::chars::scan_digits(v, e);
    }
    Some(e)
}

/// Whether a date shape `NNNN-NN-NN` starts at `i`.
fn match_date_head(v: &Vec<char>, i: usize) -> (r: bool)
    requires
        i <= v@.len(),
    ensures
        r ==> i + 10 <= v@.len(),
{
    let n = v.len();
    n - i >= 10 && crate::chars::digit_check(v[i]) && crate::chars::digit_check(v[i + 1])
        && crate::chars::digit_check(v[i + 2]) && crate::chars::digit_check(v[i + 3]) && v[i + 4]
        == '-' && crate::chars::digit_check(v[i + 5]) && crate::chars::digit_check(v[i + 6]) && v[i
        + 7] == '-' && crate::chars::digit_check(v[i + 8]) && crate::chars::digit_check(v[i + 9])
}

/// Lexes one numeric-led token starting at `i` (a digit): integer, decimal,
/// boolean, date, time, datetime, timestamp or duration.
fn lex_numeric(v: &Vec<char>, i: usize) -> (r: (Tok, usize))
    requires
        i < v@.len(),
        crate::chars::is_digit(v@[i as int]),
    ensures
        i < r.1 <= v@.len(),
{
    let n = v.len();
    if match_date_head(v, i) {
        let after = i + 10;
        if after < n && (v[after] == 'D' || v[after] == 'T') {
            let kind = if v[after] == 'D' {
                Tok::TimestampLit
            } else {
                Tok::DatetimeLit
            };
            match match_time_tail(v, after + 1) {
                Some(e) => {
                    return (kind, e);
                },
                None => {
                    return (kind, after + 1);
                },
            }
        }
        return (Tok::DateLit, after);
    }
    match match_time_tail(v, i) {
        Some(e) => {
            return (Tok::TimeLit, e);
        },
        None => {},
    }
    let j = crate::chars::scan_digits(v, i);
    proof {
        if j == i {
            assert(!crate::chars::is_digit(v@[i as int]));
        }
    }
    if j < n && v[j] == '.' {
        let k = crate::chars::scan_digits(v, j + 1);
        // optional f32/f64 suffix
        let mut e = k;
        while e < n && (is_alpha(v[e]) || crate::chars::digit_check(v[e]))
            invariant
                k <= e <= n,
                n == v@.len(),
            decreases n - e,
        {
            e = e + 1;
        }
        return (Tok::DecLit, e);
    }
    if j < n && v[j] == 'D' {
        match match_time_tail(v, j + 1) {
            Some(e) => {
                return (Tok::DurationLit, e);
            },
            None => {
                return (Tok::DurationLit, j + 1);
            },
        }
    }
    if j < n && is_alpha(v[j]) {
        let mut e = j + 1;
        while e < n && (is_alpha(v[e]) || crate::chars::digit_check(v[e]))
            invariant
                j < e <= n,
                n == v@.len(),
            decreases n - e,
        {
            e = e + 1;
        }
        // classify by the suffix text
        if e - j == 1 && v[j] == 'b' && j == i + 1 && (v[i] == '0' || v[i] == '1') {
            return (Tok::BoolLit, e);
        }
        if e - j == 3 && v[j] == 'f' && ((v[j + 1] == '3' && v[j + 2] == '2') || (v[j + 1] == '6'
            && v[j + 2] == '4')) {
            return (Tok::DecLit, e);
        }
        if (e - j == 2 && v[j] == 'n' && v[j + 1] == 's') || (e - j == 1 && (v[j] == 's' || v[j]
            == 'm' || v[j] == 'h')) {
            return (Tok::DurationLit, e);
        }
        return (Tok::IntLit, e);
    }
    proof {
        if j == i {
            assert(!crate::chars::is_digit(v@[i as int]));
        }
    }
    (Tok::IntLit, j)
}

/// Splits the source into tokens, skipping whitespace and line and block
/// comments. Fails on an unterminated string or block comment and on a
/// character no token can start with.
pub fn tokenize(source: &str, offsets: &Vec<usize>, v: &Vec<char>) -> (r: Result<
    Vec<Token>,
    SpanErr,
>)
    requires
        v@ == source@,
        offsets@.len() == v@.len() + 1,
        forall|i: int| 0 <= i <= v@.len() ==> #[trigger] offsets@[i] == blen(v@.take(i)),
    ensures
        r matches Ok(toks) ==> forall|k: int|
            0 <= k < toks@.len() ==> (#[trigger] toks@[k]).cstart < toks@[k].cend <= v@.len(),
        r matches Ok(toks) ==> forall|k1: int, k2: int|
            0 <= k1 < k2 < toks@.len() ==> (#[trigger] toks@[k1]).cend <= (
            #[trigger] toks@[k2]).cstart,
{
    let n = v.len();
    let mut toks: Vec<Token> = Vec::new();
    let mut i: usize = 0;
    while i < n
        invariant
            i <= n,
            n == v@.len(),
            v@ == source@,
            offsets@.len() == v@.len() + 1,
            forall|k: int| 0 <= k <= v@.len() ==> #[trigger] offsets@[k] == blen(v@.take(k)),
            forall|k: int|
                0 <= k < toks@.len() ==> (#[trigger] toks@[k]).cstart < toks@[k].cend <= v@.len(),
            forall|k: int| 0 <= k < toks@.len() ==> (#[trigger] toks@[k]).cend <= i,
            forall|k1: int, k2: int|
                0 <= k1 < k2 < toks@.len() ==> (#[trigger] toks@[k1]).cend <= (
                #[trigger] toks@[k2]).cstart,
        decreases n - i,
    {
        let c = v[i];
        if is_space(c) {
            i = i + 1;
            continue;
        }
        if c == '/' && i + 1 < n && v[i + 1] == '/' {
            let mut e = i + 2;
            while e < n && v[e] != '\n'
                invariant
                    i + 2 <= e <= n,
                    n == v@.len(),
                decreases n - e,
            {
                e = e + 1;
            }
            i = e;
            continue;
        }
        if c == '/' && i + 1 < n && v[i + 1] == '*' {
            let mut e = i + 2;
            let mut closed = false;
            while e < n
                invariant_except_break
                    !closed,
                invariant
                    i + 2 <= e <= n,
                    n == v@.len(),
                    closed ==> e + 2 <= n,
                decreases n - e,
            {
                if e + 1 >= n {
                    break;
                }
                if v[e] == '*' && v[e + 1] == '/' {
                    closed = true;
                    break;
                }
                e = e + 1;
            }
            if !closed {
                return Err(
                    SpanErr { msg: "unterminated block comment".to_owned(), pos: offsets[i] },
                );
            }
            i = e + 2;
            continue;
        }
        let single: Option<Tok> = if c == '(' {
            Some(Tok::LParen)
        } else if c == ')' {
            Some(Tok::RParen)
        } else if c == '[' {
            Some(Tok::LBracket)
        } else if c == ']' {
            Some(Tok::RBracket)
        } else if c == '{' {
            Some(Tok::LBrace)
        } else if c == '}' {
            Some(Tok::RBrace)
        } else if c == ',' {
            Some(Tok::Comma)
        } else if c == ';' {
            Some(Tok::Semi)
        } else if c == ':' {
            Some(Tok::Colon)
        } else {
            None
        };
        match single {
            Some(k) => {
                toks.push(Token { kind: k, cstart: i, cend: i + 1 });
                i = i + 1;
                continue;
            },
            None => {},
        }
        if c == '"' {
            let mut e = i + 1;
            while e < n && v[e] != '"'
                invariant
                    i + 1 <= e <= n,
                    n == v@.len(),
                decreases n - e,
            {
                e = e + 1;
            }
            if e >= n {
                return Err(SpanErr { msg: "unterminated string".to_owned(), pos: offsets[i] });
            }
            toks.push(Token { kind: Tok::StrLit, cstart: i, cend: e + 1 });
            i = e + 1;
            continue;
        }
        if c == '`' {
            let mut e = i + 1;
            while e < n && !is_sym_end(v[e])
                invariant
                    i + 1 <= e <= n,
                    n == v@.len(),
                decreases n - e,
            {
                e = e + 1;
            }
            if e < n && v[e] == '`' {
                e = e + 1;
            }
            toks.push(Token { kind: Tok::SymLit, cstart: i, cend: e });
            i = e;
            continue;
        }
        if crate::chars::digit_check(c) {
            let (kind, e) = lex_numeric(v, i);
            toks.push(Token { kind, cstart: i, cend: e });
            i = e;
            continue;
        }
        if c == '.' {
            if i + 1 < n && crate::chars::digit_check(v[i + 1]) {
                let k = crate::chars::scan_digits(v, i + 1);
                let mut e = k;
                while e < n && (is_alpha(v[e]) || crate::chars::digit_check(v[e]))
                    invariant
                        i + 1 <= e <= n,
                        n == v@.len(),
                    decreases n - e,
                {
                    e = e + 1;
                }
                toks.push(Token { kind: Tok::DecLit, cstart: i, cend: e });
                i = e;
                continue;
            }
            if i + 1 < n && is_id_start(v[i + 1]) {
                let mut e = i + 2;
                while e < n && is_id_cont(v[e])
                    invariant
                        i + 2 <= e <= n,
                        n == v@.len(),
                    decreases n - e,
                {
                    e = e + 1;
                }
                toks.push(Token { kind: Tok::DotId, cstart: i, cend: e });
                i = e;
                continue;
            }
            return Err(SpanErr { msg: "unexpected character".to_owned(), pos: offsets[i] });
        }
        if is_id_start(c) {
            let mut e = i + 1;
            while e < n && is_id_cont(v[e])
                invariant
                    i + 1 <= e <= n,
                    n == v@.len(),
                decreases n - e,
            {
                e = e + 1;
            }
            toks.push(Token { kind: Tok::IdTok, cstart: i, cend: e });
            i = e;
            continue;
        }
        if is_op_char(c) {
            let two = i + 1 < n && ((c == '=' && v[i + 1] == '=') || (c == '!' && v[i + 1] == '=')
                || (c == '>' && v[i + 1] == '=') || (c == '<' && v[i + 1] == '=') || (c == '+'
                && v[i + 1] == '+'));
            let e = if two {
                i + 2
            } else {
                i + 1
            };
            toks.push(Token { kind: Tok::OpTok, cstart: i, cend: e });
            i = e;
            continue;
        }
        return Err(SpanErr { msg: "unexpected character".to_owned(), pos: offsets[i] });
    }
    Ok(toks)
}

} // verus!
