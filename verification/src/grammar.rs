//! The surface grammar: a recursive-descent parser from tokens to syntax
//! nodes. Expressions are APL-style: no precedence among binary operators,
//! which associate to the right; a unary application is an identifier
//! followed by an expression.

use vstd::prelude::*;

use crate::chars::{string_from_range, str_eq_str, to_chars};
use crate::errors::SpanErr;
use crate::syntax::{byte_offsets, tokenize, Rule, SyntaxNode, Tok, Token};

verus! {

broadcast use vstd::std_specs::vec::group_vec_axioms, vstd::seq::group_seq_axioms;

/// Hard cap on expression nesting, guarding the host's stack.
pub const MAX_NESTING_DEPTH: usize = 2048;

/// Tokenized source with its position tables.
pub struct Ctx {
    pub src: String,
    pub chars: Vec<char>,
    pub offsets: Vec<usize>,
    pub toks: Vec<Token>,
}

pub open spec fn ctx_wf(c: &Ctx) -> bool {
    &&& c.chars@ == c.src@
    &&& c.offsets@.len() == c.chars@.len() + 1
    &&& c.toks@.len() < 0x1000_0000
    &&& forall|k: int|
        0 <= k < c.toks@.len() ==> (#[trigger] c.toks@[k]).cstart < c.toks@[k].cend
            <= c.chars@.len()
    &&& forall|k1: int, k2: int|
        0 <= k1 < k2 < c.toks@.len() ==> (#[trigger] c.toks@[k1]).cend <= (
        #[trigger] c.toks@[k2]).cstart
}

/// Byte offset of token `k`, or of the end of input.
fn tok_pos(c: &Ctx, k: usize) -> (r: usize)
    requires
        ctx_wf(c),
        k <= c.toks@.len(),
{
    if k < c.toks.len() {
        c.offsets[c.toks[k].cstart]
    } else {
        c.offsets[c.offsets.len() - 1]
    }
}

/// Owned text of token `k`.
fn tok_text(c: &Ctx, k: usize) -> (r: String)
    requires
        ctx_wf(c),
        k < c.toks@.len(),
    ensures
        r@ == c.src@.subrange(c.toks@[k as int].cstart as int, c.toks@[k as int].cend as int),
{
    string_from_range(c.src.as_str(), c.toks[k].cstart, c.toks[k].cend)
}

/// Whether token `k` is a word token with exactly this text.
fn tok_is_word(c: &Ctx, k: usize, w: &str) -> (r: bool)
    requires
        ctx_wf(c),
    ensures
        r ==> k < c.toks@.len() && c.toks@[k as int].kind is IdTok,
{
    if k >= c.toks.len() {
        return false;
    }
    if !matches!(c.toks[k].kind, Tok::IdTok) {
        return false;
    }
    let t = tok_text(c, k);
    str_eq_str(t.as_str(), w)
}

/// Whether token `k` is an operator token with exactly this text.
fn tok_is_op(c: &Ctx, k: usize, w: &str) -> (r: bool)
    requires
        ctx_wf(c),
    ensures
        r ==> k < c.toks@.len() && c.toks@[k as int].kind is OpTok,
{
    if k >= c.toks.len() {
        return false;
    }
    if !matches!(c.toks[k].kind, Tok::OpTok) {
        return false;
    }
    let t = tok_text(c, k);
    str_eq_str(t.as_str(), w)
}

fn err_at(c: &Ctx, k: usize, msg: &str) -> (r: SpanErr)
    requires
        ctx_wf(c),
        k <= c.toks@.len(),
{
    let mut m = String::new();
    m.append(msg);
    SpanErr { msg: m, pos: tok_pos(c, k) }
}

fn leaf(c: &Ctx, rule: Rule, k: usize) -> (r: SyntaxNode)
    requires
        ctx_wf(c),
        k < c.toks@.len(),
    ensures
        r.rule == rule,
        r.children@.len() == 0,
        r.text@ == c.src@.subrange(c.toks@[k as int].cstart as int, c.toks@[k as int].cend as int),
{
    SyntaxNode { rule, text: tok_text(c, k), start: tok_pos(c, k), children: Vec::new() }
}

/// The literal rule a token kind denotes, if it is a scalar literal.
fn literal_rule(k: Tok) -> (r: Option<Rule>) {
    match k {
        Tok::IntLit => Some(Rule::Integer),
        Tok::DecLit => Some(Rule::Decimal),
        Tok::BoolLit => Some(Rule::Boolean),
        Tok::DateLit => Some(Rule::Date),
        Tok::TimeLit => Some(Rule::Time),
        Tok::DatetimeLit => Some(Rule::Datetime),
        Tok::TimestampLit => Some(Rule::Timestamp),
        Tok::DurationLit => Some(Rule::Duration),
        Tok::SymLit => Some(Rule::Enum),
        Tok::StrLit => Some(Rule::Str),
        _ => None,
    }
}

/// Whether tokens `k` and `k+1` touch with no gap.
fn adjacent(c: &Ctx, k: usize) -> (r: bool)
    requires
        ctx_wf(c),
    ensures
        r ==> k + 1 < c.toks@.len() && c.toks@[k as int].cend == c.toks@[k + 1].cstart,
{
    k < c.toks.len() && k + 1 < c.toks.len() && c.toks[k].cend == c.toks[k + 1].cstart
}

/// Parses one expression.
pub fn p_exp(c: &Ctx, i: usize, depth: usize) -> (r: Result<(SyntaxNode, usize), SpanErr>)
    requires
        ctx_wf(c),
        i <= c.toks@.len(),
    ensures
        r matches Ok(p) ==> i < p.1 <= c.toks@.len(),
    decreases c.toks@.len() - i, 3int,
{
    if depth == 0 {
        return Err(err_at(c, i, "maximum nesting depth exceeded"));
    }
    if i >= c.toks.len() {
        return Err(err_at(c, i, "expected an expression"));
    }
    if tok_is_word(c, i, "from") {
        return p_sql(c, i, depth - 1);
    }
    let (p, j) = match p_primary(c, i, depth - 1) {
        Ok(x) => x,
        Err(e) => {
            return Err(e);
        },
    };
    // assignment: an identifier or call-like target followed by `=`
    if tok_is_op(c, j, "=") && (matches!(p.rule, Rule::Id) || matches!(p.rule, Rule::FnCall)) {
        let (rhs, j2) = match p_exp(c, j + 1, depth - 1) {
            Ok(x) => x,
            Err(e) => {
                return Err(e);
            },
        };
        let start = p.start;
        let mut children: Vec<SyntaxNode> = Vec::new();
        children.push(p);
        children.push(rhs);
        return Ok(
            (SyntaxNode { rule: Rule::AssignmentExp, text: String::new(), start, children }, j2),
        );
    }
    // a binary operator continues the expression; the rest binds rightward
    if j < c.toks.len() && matches!(c.toks[j].kind, Tok::OpTok) {
        let opnode = leaf(c, Rule::BinaryOp, j);
        let (rhs, j2) = match p_exp(c, j + 1, depth - 1) {
            Ok(x) => x,
            Err(e) => {
                return Err(e);
            },
        };
        let start = p.start;
        let mut children: Vec<SyntaxNode> = Vec::new();
        children.push(p);
        children.push(opnode);
        children.push(rhs);
        return Ok((SyntaxNode { rule: Rule::BinaryExp, text: String::new(), start, children }, j2));
    }
    if j < c.toks.len() && matches!(c.toks[j].kind, Tok::DotId) {
        let opnode = leaf(c, Rule::BinaryId, j);
        let (rhs, j2) = match p_exp(c, j + 1, depth - 1) {
            Ok(x) => x,
            Err(e) => {
                return Err(e);
            },
        };
        let start = p.start;
        let mut children: Vec<SyntaxNode> = Vec::new();
        children.push(p);
        children.push(opnode);
        children.push(rhs);
        return Ok((SyntaxNode { rule: Rule::BinaryExp, text: String::new(), start, children }, j2));
    }
    // a unary application: an identifier directly before an expression
    if matches!(p.rule, Rule::Id) && j < c.toks.len() && starts_exp(c, j) {
        let (operand, j2) = match p_exp(c, j, depth - 1) {
            Ok(x) => x,
            Err(e) => {
                return Err(e);
            },
        };
        let start = p.start;
        let mut children: Vec<SyntaxNode> = Vec::new();
        children.push(p);
        children.push(operand);
        return Ok((SyntaxNode { rule: Rule::UnaryExp, text: String::new(), start, children }, j2));
    }
    Ok((p, j))
}

/// Whether token `k` can start an expression.
fn starts_exp(c: &Ctx, k: usize) -> (r: bool)
    requires
        ctx_wf(c),
{
    if k >= c.toks.len() {
        return false;
    }
    match c.toks[k].kind {
        Tok::LParen | Tok::LBracket | Tok::LBrace | Tok::IdTok | Tok::IntLit | Tok::DecLit
            | Tok::BoolLit | Tok::DateLit | Tok::TimeLit | Tok::DatetimeLit | Tok::TimestampLit
            | Tok::DurationLit | Tok::SymLit | Tok::StrLit => true,
        Tok::OpTok => {
            // a leading minus fused to a literal
            adjacent(c, k) && tok_is_op(c, k, "-") && (k + 1 < c.toks.len() && matches!(
                literal_rule(c.toks[k + 1].kind),
                Some(_),
            ))
        },
        _ => false,
    }
}

/// Parses a primary expression: a literal, an identifier, a call, a
/// collection literal, a control-flow form or a parenthesized expression.
fn p_primary(c: &Ctx, i: usize, depth: usize) -> (r: Result<(SyntaxNode, usize), SpanErr>)
    requires
        ctx_wf(c),
        i <= c.toks@.len(),
    ensures
        r matches Ok(p) ==> i < p.1 <= c.toks@.len(),
    decreases c.toks@.len() - i, 1int,
{
    if depth == 0 {
        return Err(err_at(c, i, "maximum nesting depth exceeded"));
    }
    if i >= c.toks.len() {
        return Err(err_at(c, i, "expected an expression"));
    }
    let kind = c.toks[i].kind;
    // a leading minus fused to an adjacent literal
    if matches!(kind, Tok::OpTok) {
        if adjacent(c, i) && tok_is_op(c, i, "-") {
            match literal_rule(c.toks[i + 1].kind) {
                Some(rule) => {
                    let text = string_from_range(
                        c.src.as_str(),
                        c.toks[i].cstart,
                        c.toks[i + 1].cend,
                    );
                    return Ok(
                        (
                            SyntaxNode {
                                rule,
                                text,
                                start: tok_pos(c, i),
                                children: Vec::new(),
                            },
                            i + 2,
                        ),
                    );
                },
                None => {},
            }
        }
        return Err(err_at(c, i, "unexpected operator"));
    }
    match literal_rule(kind) {
        Some(rule) => {
            return Ok((leaf(c, rule, i), i + 1));
        },
        None => {},
    }
    if matches!(kind, Tok::LParen) {
        let (inner, j) = match p_exp(c, i + 1, depth - 1) {
            Ok(x) => x,
            Err(e) => {
                return Err(e);
            },
        };
        if j >= c.toks.len() || !matches!(c.toks[j].kind, Tok::RParen) {
            return Err(err_at(c, j, "expected a closing parenthesis"));
        }
        let start = tok_pos(c, i);
        let mut children: Vec<SyntaxNode> = Vec::new();
        children.push(inner);
        return Ok(
            (SyntaxNode { rule: Rule::BracketExp, text: String::new(), start, children }, j + 1),
        );
    }
    if matches!(kind, Tok::LBracket) {
        return p_series(c, i);
    }
    if matches!(kind, Tok::LBrace) {
        return p_dict(c, i, depth - 1);
    }
    if matches!(kind, Tok::IdTok) {
        if tok_is_word(c, i, "fn") && i + 1 < c.toks.len() && matches!(
            c.toks[i + 1].kind,
            Tok::LParen,
        ) {
            return p_fn(c, i, depth - 1);
        }
        if tok_is_word(c, i, "if") && i + 1 < c.toks.len() && matches!(
            c.toks[i + 1].kind,
            Tok::LParen,
        ) {
            return p_cond(c, i, depth - 1, true);
        }
        if tok_is_word(c, i, "while") && i + 1 < c.toks.len() && matches!(
            c.toks[i + 1].kind,
            Tok::LParen,
        ) {
            return p_cond(c, i, depth - 1, false);
        }
        if tok_is_word(c, i, "try") && i + 1 < c.toks.len() && matches!(
            c.toks[i + 1].kind,
            Tok::LBrace,
        ) {
            return p_try(c, i, depth - 1);
        }
        if tok_is_word(c, i, "return") {
            let (inner, j) = match p_exp(c, i + 1, depth - 1) {
                Ok(x) => x,
                Err(e) => {
                    return Err(e);
                },
            };
            let start = tok_pos(c, i);
            let mut children: Vec<SyntaxNode> = Vec::new();
            children.push(inner);
            return Ok(
                (SyntaxNode { rule: Rule::ReturnExp, text: String::new(), start, children }, j),
            );
        }
        if tok_is_word(c, i, "raise") {
            let (inner, j) = match p_exp(c, i + 1, depth - 1) {
                Ok(x) => x,
                Err(e) => {
                    return Err(e);
                },
            };
            let start = tok_pos(c, i);
            let mut children: Vec<SyntaxNode> = Vec::new();
            children.push(inner);
            return Ok(
                (SyntaxNode { rule: Rule::RaiseExp, text: String::new(), start, children }, j),
            );
        }
        if tok_is_word(c, i, "none") {
            return Ok((leaf(c, Rule::NoneLit, i), i + 1));
        }
        if tok_is_word(c, i, "l") && adjacent(c, i) && matches!(c.toks[i + 1].kind, Tok::LBracket) {
            return p_list(c, i, depth - 1);
        }
        if tok_is_word(c, i, "df") && adjacent(c, i) && matches!(c.toks[i + 1].kind, Tok::LBracket) {
            return p_cols(c, i, depth - 1, true);
        }
        if tok_is_word(c, i, "m") && adjacent(c, i) && matches!(c.toks[i + 1].kind, Tok::LBracket) {
            return p_cols(c, i, depth - 1, false);
        }
        if i + 1 < c.toks.len() && matches!(c.toks[i + 1].kind, Tok::LParen) {
            return p_call(c, i, depth - 1);
        }
        return Ok((leaf(c, Rule::Id, i), i + 1));
    }
    Err(err_at(c, i, "unexpected token"))
}

/// Parses a series literal `[scalar, scalar, ...]`; the elements stay
/// unclassified lexemes.
fn p_series(c: &Ctx, i: usize) -> (r: Result<(SyntaxNode, usize), SpanErr>)
    requires
        ctx_wf(c),
        i < c.toks@.len(),
        c.toks@[i as int].kind is LBracket,
    ensures
        r matches Ok(p) ==> i < p.1 <= c.toks@.len(),
    decreases c.toks@.len() - i, 0int,
{
    let n = c.toks.len();
    let mut children: Vec<SyntaxNode> = Vec::new();
    let mut j = i + 1;
    while j < n
        invariant
            ctx_wf(c),
            i < j <= n,
            n == c.toks@.len(),
        decreases n - j,
    {
        if matches!(c.toks[j].kind, Tok::RBracket) {
            break;
        }
        if matches!(c.toks[j].kind, Tok::Comma) {
            j = j + 1;
            continue;
        }
        // one scalar lexeme; a minus fused to the next token joins it
        if tok_is_op(c, j, "-") && adjacent(c, j) && !matches!(c.toks[j + 1].kind, Tok::Comma)
            && !matches!(c.toks[j + 1].kind, Tok::RBracket) {
            let text = string_from_range(c.src.as_str(), c.toks[j].cstart, c.toks[j + 1].cend);
            children.push(
                SyntaxNode { rule: Rule::Unknown, text, start: tok_pos(c, j), children: Vec::new() },
            );
            j = j + 2;
        } else {
            children.push(leaf(c, Rule::Unknown, j));
            j = j + 1;
        }
    }
    if j >= n {
        return Err(err_at(c, j, "expected a closing bracket"));
    }
    let start = tok_pos(c, i);
    Ok((SyntaxNode { rule: Rule::Series, text: String::new(), start, children }, j + 1))
}

/// Parses a list literal `l[item, ...]`; a bare operator is kept as one.
fn p_list(c: &Ctx, i: usize, depth: usize) -> (r: Result<(SyntaxNode, usize), SpanErr>)
    requires
        ctx_wf(c),
        i < c.toks@.len(),
        i + 1 < c.toks@.len(),
        c.toks@[i + 1].kind is LBracket,
    ensures
        r matches Ok(p) ==> i < p.1 <= c.toks@.len(),
    decreases c.toks@.len() - i, 0int,
{
    let n = c.toks.len();
    let mut children: Vec<SyntaxNode> = Vec::new();
    let mut j = i + 2;
    while j < n
        invariant
            ctx_wf(c),
            i + 2 <= j <= n,
            n == c.toks@.len(),
        decreases n - j,
    {
        if matches!(c.toks[j].kind, Tok::RBracket) {
            break;
        }
        if matches!(c.toks[j].kind, Tok::Comma) {
            j = j + 1;
            continue;
        }
        if matches!(c.toks[j].kind, Tok::OpTok) && !(adjacent(c, j) && tok_is_op(c, j, "-")
            && matches!(literal_rule(c.toks[j + 1].kind), Some(_))) {
            children.push(leaf(c, Rule::BinaryOp, j));
            j = j + 1;
            continue;
        }
        let (item, j2) = match p_exp(c, j, depth) {
            Ok(x) => x,
            Err(e) => {
                return Err(e);
            },
        };
        children.push(item);
        j = j2;
    }
    if j >= n {
        return Err(err_at(c, j, "expected a closing bracket"));
    }
    let start = tok_pos(c, i);
    Ok((SyntaxNode { rule: Rule::List, text: String::new(), start, children }, j + 1))
}

/// Parses a dataframe or matrix literal: a bracketed column list with
/// optional `name = exp` renaming for a dataframe.
fn p_cols(c: &Ctx, i: usize, depth: usize, renames: bool) -> (r: Result<
    (SyntaxNode, usize),
    SpanErr,
>)
    requires
        ctx_wf(c),
        i < c.toks@.len(),
        i + 1 < c.toks@.len(),
        c.toks@[i + 1].kind is LBracket,
    ensures
        r matches Ok(p) ==> i < p.1 <= c.toks@.len(),
    decreases c.toks@.len() - i, 0int,
{
    let n = c.toks.len();
    let mut children: Vec<SyntaxNode> = Vec::new();
    let mut j = i + 2;
    while j < n
        invariant
            ctx_wf(c),
            i + 2 <= j <= n,
            n == c.toks@.len(),
        decreases n - j,
    {
        if matches!(c.toks[j].kind, Tok::RBracket) {
            break;
        }
        if matches!(c.toks[j].kind, Tok::Comma) {
            j = j + 1;
            continue;
        }
        if renames && matches!(c.toks[j].kind, Tok::IdTok) && tok_is_op(c, j + 1, "=") {
            let name = leaf(c, Rule::SeriesName, j);
            let (exp, j2) = match p_exp(c, j + 2, depth) {
                Ok(x) => x,
                Err(e) => {
                    return Err(e);
                },
            };
            let start = name.start;
            let mut rnc: Vec<SyntaxNode> = Vec::new();
            rnc.push(name);
            rnc.push(exp);
            let rn = SyntaxNode {
                rule: Rule::RenameSeriesExp,
                text: String::new(),
                start,
                children: rnc,
            };
            let mut sec: Vec<SyntaxNode> = Vec::new();
            sec.push(rn);
            children.push(
                SyntaxNode { rule: Rule::SeriesExp, text: String::new(), start, children: sec },
            );
            j = j2;
            continue;
        }
        let (exp, j2) = match p_exp(c, j, depth) {
            Ok(x) => x,
            Err(e) => {
                return Err(e);
            },
        };
        let start = exp.start;
        let mut sec: Vec<SyntaxNode> = Vec::new();
        sec.push(exp);
        children.push(
            SyntaxNode { rule: Rule::SeriesExp, text: String::new(), start, children: sec },
        );
        j = j2;
    }
    if j >= n {
        return Err(err_at(c, j, "expected a closing bracket"));
    }
    let start = tok_pos(c, i);
    let rule = if renames {
        Rule::Dataframe
    } else {
        Rule::Matrix
    };
    Ok((SyntaxNode { rule, text: String::new(), start, children }, j + 1))
}

/// Parses a dict literal `{key: exp, ...}`.
fn p_dict(c: &Ctx, i: usize, depth: usize) -> (r: Result<(SyntaxNode, usize), SpanErr>)
    requires
        ctx_wf(c),
        i < c.toks@.len(),
        c.toks@[i as int].kind is LBrace,
    ensures
        r matches Ok(p) ==> i < p.1 <= c.toks@.len(),
    decreases c.toks@.len() - i, 0int,
{
    let n = c.toks.len();
    let mut children: Vec<SyntaxNode> = Vec::new();
    let mut j = i + 1;
    while j < n
        invariant
            ctx_wf(c),
            i < j <= n,
            n == c.toks@.len(),
        decreases n - j,
    {
        if matches!(c.toks[j].kind, Tok::RBrace) {
            break;
        }
        if matches!(c.toks[j].kind, Tok::Comma) {
            j = j + 1;
            continue;
        }
        if !matches!(c.toks[j].kind, Tok::IdTok) {
            return Err(err_at(c, j, "expected a key"));
        }
        let key = leaf(c, Rule::Id, j);
        if j + 1 >= n || !matches!(c.toks[j + 1].kind, Tok::Colon) {
            return Err(err_at(c, j, "expected a colon after the key"));
        }
        let (val, j2) = match p_exp(c, j + 2, depth) {
            Ok(x) => x,
            Err(e) => {
                return Err(e);
            },
        };
        let start = key.start;
        let mut kvc: Vec<SyntaxNode> = Vec::new();
        kvc.push(key);
        kvc.push(val);
        children.push(
            SyntaxNode { rule: Rule::KeyValueExp, text: String::new(), start, children: kvc },
        );
        j = j2;
    }
    if j >= n {
        return Err(err_at(c, j, "expected a closing brace"));
    }
    let start = tok_pos(c, i);
    Ok((SyntaxNode { rule: Rule::Dict, text: String::new(), start, children }, j + 1))
}

/// Parses statements up to a closing brace, separated by semicolons.
fn p_stmts(c: &Ctx, i: usize, depth: usize) -> (r: Result<(Vec<SyntaxNode>, usize), SpanErr>)
    requires
        ctx_wf(c),
        i <= c.toks@.len(),
    ensures
        r matches Ok(p) ==> i <= p.1 <= c.toks@.len() && p.1 < c.toks@.len() && c.toks@[p.1 as int].kind is RBrace,
    decreases c.toks@.len() - i, 4int,
{
    let n = c.toks.len();
    let mut stmts: Vec<SyntaxNode> = Vec::new();
    let mut j = i;
    while j < n
        invariant
            ctx_wf(c),
            i <= j <= n,
            n == c.toks@.len(),
        decreases n - j,
    {
        if matches!(c.toks[j].kind, Tok::RBrace) {
            return Ok((stmts, j));
        }
        if matches!(c.toks[j].kind, Tok::Semi) {
            j = j + 1;
            continue;
        }
        let (stmt, j2) = match p_exp(c, j, depth) {
            Ok(x) => x,
            Err(e) => {
                return Err(e);
            },
        };
        stmts.push(stmt);
        j = j2;
    }
    Err(err_at(c, j, "expected a closing brace"))
}

/// Parses a function literal `fn(params){stmts}`, keeping its verbatim text.
fn p_fn(c: &Ctx, i: usize, depth: usize) -> (r: Result<(SyntaxNode, usize), SpanErr>)
    requires
        ctx_wf(c),
        i < c.toks@.len(),
        i + 1 < c.toks@.len(),
        c.toks@[i + 1].kind is LParen,
    ensures
        r matches Ok(p) ==> i < p.1 <= c.toks@.len(),
    decreases c.toks@.len() - i, 0int,
{
    let n = c.toks.len();
    let mut params: Vec<SyntaxNode> = Vec::new();
    let mut j = i + 2;
    while j < n
        invariant
            ctx_wf(c),
            i + 2 <= j <= n,
            n == c.toks@.len(),
        decreases n - j,
    {
        if matches!(c.toks[j].kind, Tok::RParen) {
            break;
        }
        if matches!(c.toks[j].kind, Tok::Comma) {
            j = j + 1;
            continue;
        }
        if !matches!(c.toks[j].kind, Tok::IdTok) {
            return Err(err_at(c, j, "expected a parameter name"));
        }
        params.push(leaf(c, Rule::Id, j));
        j = j + 1;
    }
    if j >= n {
        return Err(err_at(c, j, "expected a closing parenthesis"));
    }
    if j + 1 >= n || !matches!(c.toks[j + 1].kind, Tok::LBrace) {
        return Err(err_at(c, j, "expected a function body"));
    }
    let (stmts, j2) = match p_stmts(c, j + 2, depth) {
        Ok(x) => x,
        Err(e) => {
            return Err(e);
        },
    };
    // j2 holds the closing brace
    let text = string_from_range(c.src.as_str(), c.toks[i].cstart, c.toks[j2].cend);
    let start = tok_pos(c, i);
    let pstart = tok_pos(c, i + 1);
    let mut children: Vec<SyntaxNode> = Vec::new();
    children.push(
        SyntaxNode { rule: Rule::Params, text: String::new(), start: pstart, children: params },
    );
    let mut stmts = stmts;
    children.append(&mut stmts);
    Ok((SyntaxNode { rule: Rule::Fn, text, start, children }, j2 + 1))
}

/// Parses `if(cond){stmts}` or `while(cond){stmts}`.
fn p_cond(c: &Ctx, i: usize, depth: usize, is_if: bool) -> (r: Result<(SyntaxNode, usize), SpanErr>)
    requires
        ctx_wf(c),
        i < c.toks@.len(),
        i + 1 < c.toks@.len(),
        c.toks@[i + 1].kind is LParen,
    ensures
        r matches Ok(p) ==> i < p.1 <= c.toks@.len(),
    decreases c.toks@.len() - i, 0int,
{
    let n = c.toks.len();
    let (cond, j) = match p_exp(c, i + 2, depth) {
        Ok(x) => x,
        Err(e) => {
            return Err(e);
        },
    };
    if j >= n || !matches!(c.toks[j].kind, Tok::RParen) {
        return Err(err_at(c, j, "expected a closing parenthesis"));
    }
    if j + 1 >= n || !matches!(c.toks[j + 1].kind, Tok::LBrace) {
        return Err(err_at(c, j, "expected a block"));
    }
    let (stmts, j2) = match p_stmts(c, j + 2, depth) {
        Ok(x) => x,
        Err(e) => {
            return Err(e);
        },
    };
    let start = tok_pos(c, i);
    let sstart = tok_pos(c, j + 1);
    let mut children: Vec<SyntaxNode> = Vec::new();
    children.push(cond);
    children.push(
        SyntaxNode { rule: Rule::Statements, text: String::new(), start: sstart, children: stmts },
    );
    let rule = if is_if {
        Rule::IfExp
    } else {
        Rule::WhileExp
    };
    Ok((SyntaxNode { rule, text: String::new(), start, children }, j2 + 1))
}

/// Parses `try{stmts}catch(name){stmts}`.
fn p_try(c: &Ctx, i: usize, depth: usize) -> (r: Result<(SyntaxNode, usize), SpanErr>)
    requires
        ctx_wf(c),
        i < c.toks@.len(),
        i + 1 < c.toks@.len(),
        c.toks@[i + 1].kind is LBrace,
    ensures
        r matches Ok(p) ==> i < p.1 <= c.toks@.len(),
    decreases c.toks@.len() - i, 0int,
{
    let n = c.toks.len();
    let (tries, j) = match p_stmts(c, i + 2, depth) {
        Ok(x) => x,
        Err(e) => {
            return Err(e);
        },
    };
    if !tok_is_word(c, j + 1, "catch") {
        return Err(err_at(c, j, "expected catch"));
    }
    if j + 2 >= n || !matches!(c.toks[j + 2].kind, Tok::LParen) {
        return Err(err_at(c, j, "expected a catch parameter"));
    }
    if j + 3 >= n || !matches!(c.toks[j + 3].kind, Tok::IdTok) {
        return Err(err_at(c, j, "expected a catch parameter"));
    }
    let catch_id = leaf(c, Rule::Id, j + 3);
    if j + 4 >= n || !matches!(c.toks[j + 4].kind, Tok::RParen) {
        return Err(err_at(c, j, "expected a closing parenthesis"));
    }
    if j + 5 >= n || !matches!(c.toks[j + 5].kind, Tok::LBrace) {
        return Err(err_at(c, j, "expected a block"));
    }
    let (catches, j2) = match p_stmts(c, j + 6, depth) {
        Ok(x) => x,
        Err(e) => {
            return Err(e);
        },
    };
    let start = tok_pos(c, i);
    let t1 = tok_pos(c, i + 1);
    let t2 = tok_pos(c, j + 5);
    let mut children: Vec<SyntaxNode> = Vec::new();
    children.push(
        SyntaxNode { rule: Rule::Statements, text: String::new(), start: t1, children: tries },
    );
    children.push(catch_id);
    children.push(
        SyntaxNode { rule: Rule::Statements, text: String::new(), start: t2, children: catches },
    );
    Ok((SyntaxNode { rule: Rule::TryExp, text: String::new(), start, children }, j2 + 1))
}

/// Parses a call `name(arg, , arg)`; an omitted argument becomes a
/// placeholder.
fn p_call(c: &Ctx, i: usize, depth: usize) -> (r: Result<(SyntaxNode, usize), SpanErr>)
    requires
        ctx_wf(c),
        i < c.toks@.len(),
        i + 1 < c.toks@.len(),
        c.toks@[i + 1].kind is LParen,
        c.toks@[i as int].kind is IdTok,
    ensures
        r matches Ok(p) ==> i < p.1 <= c.toks@.len(),
    decreases c.toks@.len() - i, 0int,
{
    let n = c.toks.len();
    let f = leaf(c, Rule::Id, i);
    let mut children: Vec<SyntaxNode> = Vec::new();
    let start = f.start;
    children.push(f);
    let mut j = i + 2;
    let mut expect_arg = true;
    while j < n
        invariant
            ctx_wf(c),
            i + 2 <= j <= n,
            n == c.toks@.len(),
        decreases n - j,
    {
        if matches!(c.toks[j].kind, Tok::RParen) {
            if expect_arg && children.len() > 1 {
                let apos = tok_pos(c, j);
                let mut ac: Vec<SyntaxNode> = Vec::new();
                ac.push(
                    SyntaxNode {
                        rule: Rule::Skip,
                        text: String::new(),
                        start: apos,
                        children: Vec::new(),
                    },
                );
                children.push(
                    SyntaxNode { rule: Rule::Arg, text: String::new(), start: apos, children: ac },
                );
            }
            break;
        }
        if matches!(c.toks[j].kind, Tok::Comma) {
            if expect_arg {
                let apos = tok_pos(c, j);
                let mut ac: Vec<SyntaxNode> = Vec::new();
                ac.push(
                    SyntaxNode {
                        rule: Rule::Skip,
                        text: String::new(),
                        start: apos,
                        children: Vec::new(),
                    },
                );
                children.push(
                    SyntaxNode { rule: Rule::Arg, text: String::new(), start: apos, children: ac },
                );
            }
            expect_arg = true;
            j = j + 1;
            continue;
        }
        let (arg, j2) = match p_exp(c, j, depth) {
            Ok(x) => x,
            Err(e) => {
                return Err(e);
            },
        };
        let astart = arg.start;
        let mut ac: Vec<SyntaxNode> = Vec::new();
        ac.push(arg);
        children.push(
            SyntaxNode { rule: Rule::Arg, text: String::new(), start: astart, children: ac },
        );
        expect_arg = false;
        j = j2;
    }
    if j >= n {
        return Err(err_at(c, j, "expected a closing parenthesis"));
    }
    Ok((SyntaxNode { rule: Rule::FnCall, text: String::new(), start, children }, j + 1))
}

/// Parses an SQL expression: `from` and its clauses in source order.
fn p_sql(c: &Ctx, i: usize, depth: usize) -> (r: Result<(SyntaxNode, usize), SpanErr>)
    requires
        ctx_wf(c),
        i < c.toks@.len(),
    ensures
        r matches Ok(p) ==> i < p.1 <= c.toks@.len(),
    decreases c.toks@.len() - i, 2int,
{
    let n = c.toks.len();
    let (src_exp, mut j) = match p_primary(c, i + 1, depth) {
        Ok(x) => x,
        Err(e) => {
            return Err(e);
        },
    };
    let start = tok_pos(c, i);
    let fstart = src_exp.start;
    let mut children: Vec<SyntaxNode> = Vec::new();
    let mut fc: Vec<SyntaxNode> = Vec::new();
    fc.push(src_exp);
    children.push(
        SyntaxNode { rule: Rule::FromExp, text: String::new(), start: fstart, children: fc },
    );
    while j < n
        invariant
            ctx_wf(c),
            i < j <= n,
            n == c.toks@.len(),
        decreases n - j,
    {
        if tok_is_word(c, j, "filter") && j + 1 < n && matches!(c.toks[j + 1].kind, Tok::LBrace) {
            let (exps, j2) = match p_clause_exps(c, j + 2, depth) {
                Ok(x) => x,
                Err(e) => {
                    return Err(e);
                },
            };
            let cstart = tok_pos(c, j);
            children.push(
                SyntaxNode {
                    rule: Rule::FilterExp,
                    text: String::new(),
                    start: cstart,
                    children: exps,
                },
            );
            j = j2;
            continue;
        }
        if tok_is_word(c, j, "group") && j + 1 < n && matches!(c.toks[j + 1].kind, Tok::LBrace) {
            let (exps, j2) = match p_sql_cols(c, j + 2, depth) {
                Ok(x) => x,
                Err(e) => {
                    return Err(e);
                },
            };
            let cstart = tok_pos(c, j);
            children.push(
                SyntaxNode {
                    rule: Rule::GroupExp,
                    text: String::new(),
                    start: cstart,
                    children: exps,
                },
            );
            j = j2;
            continue;
        }
        if (tok_is_word(c, j, "select") || tok_is_word(c, j, "update")) && j + 1 < n && matches!(
            c.toks[j + 1].kind,
            Tok::LBrace,
        ) {
            let is_select = tok_is_word(c, j, "select");
            let (exps, j2) = match p_sql_cols(c, j + 2, depth) {
                Ok(x) => x,
                Err(e) => {
                    return Err(e);
                },
            };
            let cstart = tok_pos(c, j);
            let rule = if is_select {
                Rule::SelectOp
            } else {
                Rule::UpdateOp
            };
            children.push(SyntaxNode { rule, text: String::new(), start: cstart, children: exps });
            j = j2;
            continue;
        }
        if tok_is_word(c, j, "delete") && j + 1 < n && matches!(c.toks[j + 1].kind, Tok::LBrace) {
            let (names, j2) = match p_names(c, j + 2, depth, false) {
                Ok(x) => x,
                Err(e) => {
                    return Err(e);
                },
            };
            let cstart = tok_pos(c, j);
            children.push(
                SyntaxNode {
                    rule: Rule::DeleteOp,
                    text: String::new(),
                    start: cstart,
                    children: names,
                },
            );
            j = j2;
            continue;
        }
        if tok_is_word(c, j, "sort") && j + 1 < n && matches!(c.toks[j + 1].kind, Tok::LBrace) {
            let (names, j2) = match p_names(c, j + 2, depth, true) {
                Ok(x) => x,
                Err(e) => {
                    return Err(e);
                },
            };
            let cstart = tok_pos(c, j);
            children.push(
                SyntaxNode {
                    rule: Rule::SortOp,
                    text: String::new(),
                    start: cstart,
                    children: names,
                },
            );
            j = j2;
            continue;
        }
        if tok_is_word(c, j, "take") {
            let (exp, j2) = match p_exp(c, j + 1, depth) {
                Ok(x) => x,
                Err(e) => {
                    return Err(e);
                },
            };
            let cstart = tok_pos(c, j);
            let mut tc: Vec<SyntaxNode> = Vec::new();
            tc.push(exp);
            children.push(
                SyntaxNode {
                    rule: Rule::TakeOp,
                    text: String::new(),
                    start: cstart,
                    children: tc,
                },
            );
            j = j2;
            continue;
        }
        break;
    }
    Ok((SyntaxNode { rule: Rule::SqlExp, text: String::new(), start, children }, j))
}

/// Parses comma-separated expressions up to a closing brace.
fn p_clause_exps(c: &Ctx, i: usize, depth: usize) -> (r: Result<(Vec<SyntaxNode>, usize), SpanErr>)
    requires
        ctx_wf(c),
        i <= c.toks@.len(),
    ensures
        r matches Ok(p) ==> i < p.1 <= c.toks@.len(),
    decreases c.toks@.len() - i, 4int,
{
    let n = c.toks.len();
    let mut exps: Vec<SyntaxNode> = Vec::new();
    let mut j = i;
    while j < n
        invariant
            ctx_wf(c),
            i <= j <= n,
            n == c.toks@.len(),
        decreases n - j,
    {
        if matches!(c.toks[j].kind, Tok::RBrace) {
            return Ok((exps, j + 1));
        }
        if matches!(c.toks[j].kind, Tok::Comma) {
            j = j + 1;
            continue;
        }
        let (exp, j2) = match p_exp(c, j, depth) {
            Ok(x) => x,
            Err(e) => {
                return Err(e);
            },
        };
        exps.push(exp);
        j = j2;
    }
    Err(err_at(c, j, "expected a closing brace"))
}

/// Parses SQL projection or grouping columns: each an optionally renamed
/// expression, wrapped as a column.
fn p_sql_cols(c: &Ctx, i: usize, depth: usize) -> (r: Result<(Vec<SyntaxNode>, usize), SpanErr>)
    requires
        ctx_wf(c),
        i <= c.toks@.len(),
    ensures
        r matches Ok(p) ==> i < p.1 <= c.toks@.len(),
    decreases c.toks@.len() - i, 4int,
{
    let n = c.toks.len();
    let mut exps: Vec<SyntaxNode> = Vec::new();
    let mut j = i;
    while j < n
        invariant
            ctx_wf(c),
            i <= j <= n,
            n == c.toks@.len(),
        decreases n - j,
    {
        if matches!(c.toks[j].kind, Tok::RBrace) {
            return Ok((exps, j + 1));
        }
        if matches!(c.toks[j].kind, Tok::Comma) {
            j = j + 1;
            continue;
        }
        if matches!(c.toks[j].kind, Tok::IdTok) && tok_is_op(c, j + 1, "=") {
            let name = leaf(c, Rule::SeriesName, j);
            let (exp, j2) = match p_exp(c, j + 2, depth) {
                Ok(x) => x,
                Err(e) => {
                    return Err(e);
                },
            };
            let start = name.start;
            let mut rnc: Vec<SyntaxNode> = Vec::new();
            rnc.push(name);
            rnc.push(exp);
            let rn = SyntaxNode {
                rule: Rule::RenameSeriesExp,
                text: String::new(),
                start,
                children: rnc,
            };
            let mut sec: Vec<SyntaxNode> = Vec::new();
            sec.push(rn);
            exps.push(
                SyntaxNode { rule: Rule::SeriesExp, text: String::new(), start, children: sec },
            );
            j = j2;
            continue;
        }
        let (exp, j2) = match p_exp(c, j, depth) {
            Ok(x) => x,
            Err(e) => {
                return Err(e);
            },
        };
        let start = exp.start;
        let mut sec: Vec<SyntaxNode> = Vec::new();
        sec.push(exp);
        exps.push(SyntaxNode { rule: Rule::SeriesExp, text: String::new(), start, children: sec });
        j = j2;
    }
    Err(err_at(c, j, "expected a closing brace"))
}

/// Parses plain names up to a closing brace: sort names may carry a leading
/// minus for a descending order, delete names are bare.
fn p_names(c: &Ctx, i: usize, depth: usize, sort_names: bool) -> (r: Result<
    (Vec<SyntaxNode>, usize),
    SpanErr,
>)
    requires
        ctx_wf(c),
        i <= c.toks@.len(),
    ensures
        r matches Ok(p) ==> i < p.1 <= c.toks@.len(),
    decreases c.toks@.len() - i, 4int,
{
    let n = c.toks.len();
    let mut names: Vec<SyntaxNode> = Vec::new();
    let mut j = i;
    while j < n
        invariant
            ctx_wf(c),
            i <= j <= n,
            n == c.toks@.len(),
        decreases n - j,
    {
        if matches!(c.toks[j].kind, Tok::RBrace) {
            return Ok((names, j + 1));
        }
        if matches!(c.toks[j].kind, Tok::Comma) {
            j = j + 1;
            continue;
        }
        let rule = if sort_names {
            Rule::SortName
        } else {
            Rule::SeriesName
        };
        if sort_names && tok_is_op(c, j, "-") && j + 1 < n && matches!(
            c.toks[j + 1].kind,
            Tok::IdTok,
        ) {
            let text = string_from_range(c.src.as_str(), c.toks[j].cstart, c.toks[j + 1].cend);
            names.push(
                SyntaxNode { rule, text, start: tok_pos(c, j), children: Vec::new() },
            );
            j = j + 2;
            continue;
        }
        if !matches!(c.toks[j].kind, Tok::IdTok) {
            return Err(err_at(c, j, "expected a column name"));
        }
        names.push(leaf(c, rule, j));
        j = j + 1;
    }
    Err(err_at(c, j, "expected a closing brace"))
}

/// The grammar driver.
pub struct JParser;

impl JParser {
    /// Tokenizes and parses a whole source unit into top-level expression
    /// nodes, with the given nesting-depth limit.
    pub fn parse_with_depth(source: &str, max_depth: usize) -> (r: Result<Vec<SyntaxNode>, SpanErr>)
        ensures
            r matches Ok(nodes) ==> forall|k: int|
                0 <= k < nodes@.len() ==> (#[trigger] nodes@[k]).rule is Exp
                    && nodes@[k].children@.len() == 1,
    {
        let v = to_chars(source);
        if v.len() >= usize::MAX / 8 {
            return Err(SpanErr { msg: "source too large".to_owned(), pos: 0 });
        }

        proof {
            crate::errors::lemma_blen_bounds(source@);
        }
        let offsets = byte_offsets(&v);
        let toks = match tokenize(source, &offsets, &v) {
            Ok(t) => t,
            Err(e) => {
                return Err(e);
            },
        };
        if toks.len() >= 0x1000_0000 {
            return Err(SpanErr { msg: "source too large".to_owned(), pos: 0 });
        }
        let c = Ctx { src: source.to_owned(), chars: v, offsets, toks };
        proof {
            assert(ctx_wf(&c));
        }
        let n = c.toks.len();
        let mut nodes: Vec<SyntaxNode> = Vec::new();
        let mut j: usize = 0;
        while j < n
            invariant
                ctx_wf(&c),
                j <= n,
                n == c.toks@.len(),
                forall|k: int|
                    0 <= k < nodes@.len() ==> (#[trigger] nodes@[k]).rule is Exp
                        && nodes@[k].children@.len() == 1,
            decreases n - j,
        {
            if matches!(c.toks[j].kind, Tok::Semi) {
                j = j + 1;
                continue;
            }
            let (node, j2) = match p_exp(&c, j, max_depth) {
                Ok(x) => x,
                Err(e) => {
                    return Err(e);
                },
            };
            let start = node.start;
            let mut ec: Vec<SyntaxNode> = Vec::new();
            ec.push(node);
            nodes.push(SyntaxNode { rule: Rule::Exp, text: String::new(), start, children: ec });
            j = j2;
        }
        Ok(nodes)
    }

    /// Tokenizes and parses a whole source unit with the default
    /// nesting-depth limit.
    pub fn parse(source: &str) -> (r: Result<Vec<SyntaxNode>, SpanErr>)
        ensures
            r matches Ok(nodes) ==> forall|k: int|
                0 <= k < nodes@.len() ==> (#[trigger] nodes@[k]).rule is Exp
                    && nodes@[k].children@.len() == 1,
    {
        JParser::parse_with_depth(source, MAX_NESTING_DEPTH)
    }
}

} // verus!
