//! The expression walker: descends the syntax tree and builds AST nodes,
//! folding constant series, dataframe and matrix literals and decomposing
//! SQL clauses.

use vstd::prelude::*;

use crate::ast::AstNode;
use crate::chars::{fits_i64, int_val, is_int_lexeme, str_eq_str, to_chars};
use crate::dec::{dec_lexeme_canon, dec_mant_val, is_dec_lexeme, Dec, DEC_MANT_MAX};
use crate::errors::SpanErr;
use crate::j::{
    df_wf, kind_is_numeric, scalar_as_series, scalar_to_series_ok, series_spec_kind,
    series_spec_len, spec_type_name, DataFrame, Dict, Matrix, Series, SeriesData, J,
};
use crate::series::{series_from_elems, sym_text, str_text, SeriesElem};
use crate::syntax::{lemma_child_smaller, Rule, SyntaxNode};
use crate::temporal::{
    date_valid, date_value, datetime_valid, datetime_value, dur_valid, dur_value, parse_date,
    parse_datetime, parse_duration, parse_time, parse_timestamp, time_valid, time_value,
    timestamp_valid, timestamp_value,
};

verus! {

broadcast use vstd::std_specs::vec::group_vec_axioms, vstd::seq::group_seq_axioms;

/// Whether a literal node's text conforms to its rule.
pub open spec fn literal_ok(rule: Rule, s: Seq<char>) -> bool {
    match rule {
        Rule::Boolean => true,
        Rule::Integer => is_int_lexeme(s) && fits_i64(int_val(s)),
        Rule::Decimal => is_dec_lexeme(s) && dec_mant_val(s) <= DEC_MANT_MAX,
        Rule::Date => date_valid(s),
        Rule::Time => time_valid(s),
        Rule::Datetime => datetime_valid(s),
        Rule::Timestamp => timestamp_valid(s),
        Rule::Duration => dur_valid(s),
        Rule::Enum => s.len() >= 1 && s[0] == '`',
        Rule::Str => s.len() >= 2 && s[0] == '"' && s[s.len() - 1] == '"',
        Rule::NoneLit => true,
        _ => false,
    }
}

/// The scalar value a literal node denotes.
pub open spec fn literal_matches(rule: Rule, s: Seq<char>, j: J) -> bool {
    match rule {
        Rule::Boolean => j == J::Boolean(s == "1b"@),
        Rule::Integer => j matches J::I64(v) && v as int == int_val(s),
        Rule::Decimal => j matches J::F64(d) && d == dec_lexeme_canon(s),
        Rule::Date => j matches J::Date(v) && v as int == date_value(s),
        Rule::Time => j matches J::Time(v) && v as int == time_value(s),
        Rule::Datetime => j matches J::Datetime(v) && v as int == datetime_value(s),
        Rule::Timestamp => j matches J::Timestamp(v) && v as int == timestamp_value(s),
        Rule::Duration => j matches J::Duration(v) && v as int == dur_value(s),
        Rule::Enum => j matches J::Symbol(t) && t@ == sym_text(s),
        Rule::Str => j matches J::Str(t) && t@ == str_text(s),
        Rule::NoneLit => j == J::Null,
        _ => false,
    }
}

fn span_err(msg: &str, pos: usize) -> (r: SpanErr)
    ensures
        r.pos == pos,
        r.msg@ == msg@,
{
    let mut m = String::new();
    m.append(msg);
    assert(m@ =~= msg@);
    SpanErr { msg: m, pos }
}

/// Walks a scalar literal node into its value.
pub fn parse_j(node: &SyntaxNode) -> (r: Result<AstNode, SpanErr>)
    ensures
        r is Ok <==> literal_ok(node.rule, node.text@),
        r matches Ok(a) ==> a matches AstNode::J(j) && literal_matches(node.rule, node.text@, j),
        r matches Err(e) ==> e.pos == node.start,
{
    match node.rule {
        Rule::Boolean => {
            let b = str_eq_str(node.text.as_str(), "1b");
            Ok(AstNode::J(J::Boolean(b)))
        },
        Rule::Integer => {
            let v = to_chars(node.text.as_str());
            proof {
                assert(v@.subrange(0, v@.len() as int) =~= node.text@);
            }
            match crate::chars::parse_i64_range(&v, 0, v.len()) {
                Some(x) => Ok(AstNode::J(J::I64(x))),
                None => Err(span_err("not a valid integer", node.start)),
            }
        },
        Rule::Decimal => {
            let v = to_chars(node.text.as_str());
            proof {
                assert(v@.subrange(0, v@.len() as int) =~= node.text@);
            }
            match crate::dec::parse_dec_range(&v, 0, v.len()) {
                Some(d) => Ok(AstNode::J(J::F64(d))),
                None => Err(span_err("not a valid decimal", node.start)),
            }
        },
        Rule::Date => match parse_date(node.text.as_str()) {
            Ok(d) => Ok(AstNode::J(J::Date(d))),
            Err(_) => Err(span_err("not a valid date", node.start)),
        },
        Rule::Time => match parse_time(node.text.as_str()) {
            Ok(d) => Ok(AstNode::J(J::Time(d))),
            Err(_) => Err(span_err("not a valid time", node.start)),
        },
        Rule::Datetime => match parse_datetime(node.text.as_str()) {
            Ok(d) => Ok(AstNode::J(J::Datetime(d))),
            Err(_) => Err(span_err("not a valid datetime", node.start)),
        },
        Rule::Timestamp => match parse_timestamp(node.text.as_str()) {
            Ok(d) => Ok(AstNode::J(J::Timestamp(d))),
            Err(_) => Err(span_err("not a valid timestamp", node.start)),
        },
        Rule::Duration => match parse_duration(node.text.as_str()) {
            Ok(d) => Ok(AstNode::J(J::Duration(d))),
            Err(_) => Err(span_err("not a valid duration", node.start)),
        },
        Rule::Enum => {
            let v = to_chars(node.text.as_str());
            let n = v.len();
            if n >= 1 && v[0] == '`' {
                let inner = if n >= 2 && v[n - 1] == '`' {
                    crate::chars::string_from_range(node.text.as_str(), 1, n - 1)
                } else {
                    crate::chars::string_from_range(node.text.as_str(), 1, n)
                };
                Ok(AstNode::J(J::Symbol(inner)))
            } else {
                Err(span_err("not a valid symbol", node.start))
            }
        },
        Rule::Str => {
            let v = to_chars(node.text.as_str());
            let n = v.len();
            if n >= 2 && v[0] == '"' && v[n - 1] == '"' {
                let inner = crate::chars::string_from_range(node.text.as_str(), 1, n - 1);
                Ok(AstNode::J(J::Str(inner)))
            } else {
                Err(span_err("not a valid string", node.start))
            }
        },
        Rule::NoneLit => Ok(AstNode::J(J::Null)),
        _ => Err(span_err("Unexpected j", node.start)),
    }
}

/// Walks a binary operator node: a bare operator keeps its text, a
/// dot-prefixed named operator loses the dot.
pub fn parse_binary_op(node: &SyntaxNode, source_id: usize) -> (r: Result<AstNode, SpanErr>)
    ensures
        r is Ok <==> binop_ok(*node),
        r matches Ok(a) ==> binop_walked(*node, a, source_id),
        r matches Err(e) ==> e.pos == node.start,
{
    match node.rule {
        Rule::BinaryOp => Ok(
            AstNode::Op { name: node.text.clone(), start: node.start, source_id },
        ),
        Rule::BinaryId => {
            let v = to_chars(node.text.as_str());
            let n = v.len();
            if n >= 1 {
                let name = crate::chars::string_from_range(node.text.as_str(), 1, n);
                Ok(AstNode::Op { name, start: node.start, source_id })
            } else {
                Err(span_err("Unexpected binary op/function", node.start))
            }
        },
        _ => Err(span_err("Unexpected binary op/function", node.start)),
    }
}

/// The series elements a literal node's children denote.
pub open spec fn elems_of(children: Seq<SyntaxNode>) -> Seq<SeriesElem> {
    Seq::new(
        children.len(),
        |i: int| SeriesElem { text: children[i].text, start: children[i].start },
    )
}

/// Walks a series literal: classification by the first element's lexeme
/// alone, strict elementwise parsing afterwards.
pub fn parse_series(node: &SyntaxNode) -> (r: Result<AstNode, SpanErr>)
    ensures
        ({
            let elems = elems_of(node.children@);
            let k = crate::series::series_kind_of(elems);
            &&& (r is Ok <==> crate::series::all_elems_ok(k, elems))
            &&& (r matches Ok(a) ==> a matches AstNode::J(j) && j matches J::Series(s)
                && s.name@ == Seq::<char>::empty() && crate::series::series_content(
                k,
                elems,
                s.data,
            ))
            &&& (r matches Err(e) ==> crate::series::series_err_at(k, elems, e))
        }),
{
    let n = node.children.len();
    let mut elems: Vec<SeriesElem> = Vec::new();
    let mut i: usize = 0;
    while i < n
        invariant
            i <= n,
            n == node.children@.len(),
            elems@.len() == i,
            forall|k: int| 0 <= k < i ==> #[trigger] elems@[k] == elems_of(node.children@)[k],
        decreases n - i,
    {
        elems.push(
            SeriesElem { text: node.children[i].text.clone(), start: node.children[i].start },
        );
        i = i + 1;
    }
    proof {
        assert(elems@ =~= elems_of(node.children@));
    }
    match series_from_elems(&elems) {
        Ok(s) => Ok(AstNode::J(J::Series(s))),
        Err(e) => Err(e),
    }
}


/// The synthesized name of column `i`: `col` and a two-digit, zero-padded
/// position (wider past 99).
pub open spec fn col_default_name(i: nat) -> Seq<char> {
    "col"@ + (if i < 10 {
        seq!['0', crate::chars::digit_char(i)]
    } else {
        crate::chars::dec_str(i)
    })
}

/// Builds the synthesized column name.
pub fn default_col_name(i: usize) -> (r: String)
    ensures
        r@ == col_default_name(i as nat),
{
    let mut m = String::new();
    m.append("col");
    if i < 10 {
        proof {
            reveal_strlit("0");
        }
        m.append("0");
    }
    let d = crate::chars::fmt_u64(i as u64);
    m.append(d.as_str());
    proof {
        if i < 10 {
            assert(m@ =~= "col"@ + seq!['0', crate::chars::digit_char(i as nat)]);
        } else {
            assert(m@ =~= "col"@ + crate::chars::dec_str(i as nat));
        }
    }
    m
}

/// One column of a dataframe or matrix literal: an optional explicit name,
/// the walked expression and the column's byte offset.
pub struct DfCol {
    pub name: Option<String>,
    pub exp: AstNode,
    pub start: usize,
}

/// A constant column: its expression already folded to a value.
pub open spec fn df_col_const(c: DfCol) -> bool {
    c.exp is J
}

/// A constant column that a series can be made of.
pub open spec fn df_col_seriesable(c: DfCol) -> bool {
    c.exp matches AstNode::J(j) && (j is Series || scalar_to_series_ok(j))
}

/// The name a constant column takes: the explicit one, or the synthesized
/// positional one.
pub open spec fn df_col_name(c: DfCol, i: int) -> Seq<char> {
    if c.name is Some {
        c.name->0@
    } else {
        col_default_name(i as nat)
    }
}

/// Slot count of a constant column.
pub open spec fn df_col_len(c: DfCol) -> int {
    match c.exp {
        AstNode::J(j) => match j {
            J::Series(s0) => series_spec_len(s0.data) as int,
            _ => 1,
        },
        _ => 0,
    }
}

/// The series a constant column folds to: renamed, slots unchanged (a scalar
/// becomes its single-slot series).
pub open spec fn df_const_series(c: DfCol, i: int, s: Series) -> bool {
    &&& s.name@ == df_col_name(c, i)
    &&& (c.exp matches AstNode::J(j) && match j {
        J::Series(s0) => s.data == s0.data,
        _ => scalar_as_series(j, s.data),
    })
}

/// What each column contributes to a deferred dataframe node: a constant
/// becomes its renamed series, a bare identifier keeps its own name, any
/// other expression gets the explicit or synthesized name.
pub open spec fn df_deferred_col(c: DfCol, i: int, a: AstNode) -> bool {
    if df_col_const(c) {
        a matches AstNode::J(j2) && (j2 matches J::Series(s) && df_const_series(c, i, s))
    } else if c.exp matches AstNode::Id { .. } {
        a matches AstNode::Series { name: nm, exp } && (c.exp matches AstNode::Id { name, .. }
            && nm@ == name@) && *exp == c.exp
    } else {
        a matches AstNode::Series { name: nm, exp } && nm@ == df_col_name(c, i) && *exp == c.exp
    }
}

pub open spec fn df_all_const(cols: Seq<DfCol>) -> bool {
    forall|i: int| 0 <= i < cols.len() ==> df_col_const(#[trigger] cols[i])
}

pub open spec fn df_all_seriesable(cols: Seq<DfCol>) -> bool {
    forall|i: int|
        0 <= i < cols.len() && df_col_const(#[trigger] cols[i]) ==> df_col_seriesable(cols[i])
}

pub open spec fn df_names_unique(cols: Seq<DfCol>) -> bool {
    forall|i: int, j: int|
        0 <= i < j < cols.len() ==> df_col_name(#[trigger] cols[i], i) != df_col_name(
            #[trigger] cols[j],
            j,
        )
}

pub open spec fn df_lens_equal(cols: Seq<DfCol>) -> bool {
    forall|i: int| 0 <= i < cols.len() ==> df_col_len(#[trigger] cols[i]) == df_col_len(cols[0])
}

/// Builds a dataframe literal from its walked columns. When every column is
/// already a constant value the literal folds to a single constant tabular
/// value with columns named in declaration order (`col00`, `col01`, ... when
/// unnamed); any non-constant column leaves a deferred composite node.
pub fn build_dataframe(cols: Vec<DfCol>, span: usize) -> (r: Result<AstNode, SpanErr>)
    ensures
        r is Ok <==> df_all_seriesable(cols@) && (df_all_const(cols@) ==> (df_names_unique(cols@)
            && df_lens_equal(cols@))),
        r matches Ok(a) ==> (df_all_const(cols@) ==> (a matches AstNode::J(j) && (
        j matches J::DataFrame(df) && df.columns@.len() == cols@.len() && (forall|i: int|
            0 <= i < cols@.len() ==> df_const_series(#[trigger] cols@[i], i, df.columns@[i]))))),
        r matches Ok(a) ==> (!df_all_const(cols@) ==> (a matches AstNode::Dataframe(exps)
            && exps@.len() == cols@.len() && (forall|i: int|
            0 <= i < cols@.len() ==> df_deferred_col(#[trigger] cols@[i], i, exps@[i])))),
        r matches Err(e) ==> e.pos == span,
{
    let ghost orig = cols@;
    let n = cols.len();
    let mut pending = cols;
    let mut col_exps: Vec<AstNode> = Vec::new();
    let mut all_series = true;
    let mut i: usize = 0;
    while i < n
        invariant
            orig == cols@,
            i <= n,
            n == orig.len(),
            pending@ =~= orig.subrange(i as int, n as int),
            col_exps@.len() == i,
            all_series == (forall|k: int| 0 <= k < i ==> df_col_const(#[trigger] orig[k])),
            forall|k: int|
                0 <= k < i ==> df_deferred_col(#[trigger] orig[k], k, col_exps@[k]),
            forall|k: int|
                0 <= k < i && df_col_const(#[trigger] orig[k]) ==> df_col_seriesable(orig[k]),
        decreases n - i,
    {
        let col = pending.remove(0);
        let ghost gcol = col;
        proof {
            assert(col == orig[i as int]);
            assert(pending@ =~= orig.subrange(i + 1, n as int));
        }
        let named = match col.name {
            Some(nm) => nm,
            None => default_col_name(i),
        };
        match col.exp {
            AstNode::J(j) => {
                match j {
                    J::Series(mut s) => {
                        s.rename(named);
                        col_exps.push(AstNode::J(J::Series(s)));
                    },
                    other => {
                        let ghost gother = other;
                        let mut s = match other.into_series() {
                            Ok(s) => s,
                            Err(_) => {
                                proof {
                                    assert(gcol.exp == AstNode::J(gother));
                                    assert(!df_col_seriesable(gcol));
                                    assert(df_col_const(orig[i as int]) && !df_col_seriesable(
                                        orig[i as int],
                                    ));
                                    assert(!df_all_seriesable(orig));
                                }
                                return Err(span_err("cannot turn into a series", span));
                            },
                        };
                        s.rename(named);
                        col_exps.push(AstNode::J(J::Series(s)));
                    },
                }
            },
            AstNode::Id { name, start, source_id } => {
                let own = name.clone();
                col_exps.push(
                    AstNode::Series {
                        name: own,
                        exp: Box::new(AstNode::Id { name, start, source_id }),
                    },
                );
                all_series = false;
            },
            other => {
                col_exps.push(AstNode::Series { name: named, exp: Box::new(other) });
                all_series = false;
            },
        }
        i = i + 1;
    }
    if !all_series {
        return Ok(AstNode::Dataframe(col_exps));
    }
    // every column is constant: fold into one tabular value
    let mut built: Vec<Series> = Vec::new();
    let mut m: usize = 0;
    let mut col_exps = col_exps;
    while m < n
        invariant
            orig == cols@,
            m <= n,
            n == orig.len(),
            col_exps@.len() == n - m,
            built@.len() == m,
            forall|k: int| 0 <= k < n ==> df_col_const(#[trigger] orig[k]),
            forall|k: int|
                m <= k < n ==> df_deferred_col(#[trigger] orig[k], k, col_exps@[k - m]),
            forall|k: int| 0 <= k < m ==> df_const_series(#[trigger] orig[k], k, built@[k]),
        decreases n - m,
    {
        let a = col_exps.remove(0);
        let ghost ga = a;
        match a {
            AstNode::J(j) => match j {
                J::Series(s) => {
                    built.push(s);
                },
                _ => {
                    proof {
                        assert(df_deferred_col(orig[m as int], m as int, ga));
                        assert(false);
                    }
                    return Err(span_err("cannot turn into a series", span));
                },
            },
            _ => {
                proof {
                    assert(df_deferred_col(orig[m as int], m as int, ga));
                    assert(false);
                }
                return Err(span_err("cannot turn into a series", span));
            },
        }
        m = m + 1;
    }
    proof {
        lemma_df_wf_equiv(orig, built@);
    }
    match crate::j::df_new(built) {
        Ok(df) => Ok(AstNode::J(J::DataFrame(df))),
        Err(m) => Err(SpanErr { msg: m, pos: span }),
    }
}

/// Column series built from constant columns are well-formed exactly when
/// the columns' names are unique and their lengths equal.
proof fn lemma_df_wf_equiv(cols: Seq<DfCol>, built: Seq<Series>)
    requires
        built.len() == cols.len(),
        forall|k: int| 0 <= k < cols.len() ==> df_const_series(#[trigger] cols[k], k, built[k]),
    ensures
        df_wf(built) <==> (df_names_unique(cols) && df_lens_equal(cols)),
{
    assert(forall|k: int|
        0 <= k < cols.len() ==> (#[trigger] built[k]).name@ == df_col_name(cols[k], k));
    assert(forall|k: int|
        0 <= k < cols.len() ==> series_spec_len((#[trigger] built[k]).data) == df_col_len(
            cols[k],
        )) by {
        assert forall|k: int| 0 <= k < cols.len() implies series_spec_len(
            (#[trigger] built[k]).data,
        ) == df_col_len(cols[k]) by {
            lemma_scalar_series_len(cols[k], k, built[k]);
        }
    }
}

proof fn lemma_scalar_series_len(c: DfCol, k: int, s: Series)
    requires
        df_const_series(c, k, s),
    ensures
        series_spec_len(s.data) == df_col_len(c),
{
}


/// Name of a series element kind, for diagnostics.
pub open spec fn kind_name(k: crate::classify::SeriesKind) -> Seq<char> {
    match k {
        crate::classify::SeriesKind::Bool => "bool"@,
        crate::classify::SeriesKind::U8 => "u8"@,
        crate::classify::SeriesKind::I8 => "i8"@,
        crate::classify::SeriesKind::U16 => "u16"@,
        crate::classify::SeriesKind::I16 => "i16"@,
        crate::classify::SeriesKind::U32 => "u32"@,
        crate::classify::SeriesKind::I32 => "i32"@,
        crate::classify::SeriesKind::U64 => "u64"@,
        crate::classify::SeriesKind::I64 => "i64"@,
        crate::classify::SeriesKind::F32 => "f32"@,
        crate::classify::SeriesKind::F64 => "f64"@,
        crate::classify::SeriesKind::Date => "date"@,
        crate::classify::SeriesKind::Time => "time"@,
        crate::classify::SeriesKind::Datetime => "datetime"@,
        crate::classify::SeriesKind::Timestamp => "timestamp"@,
        crate::classify::SeriesKind::Duration => "duration"@,
        crate::classify::SeriesKind::Symbol => "sym"@,
        crate::classify::SeriesKind::Str => "str"@,
        crate::classify::SeriesKind::Null => "null"@,
    }
}

fn kind_name_exec(k: crate::classify::SeriesKind) -> (r: String)
    ensures
        r@ == kind_name(k),
{
    match k {
        crate::classify::SeriesKind::Bool => "bool".to_owned(),
        crate::classify::SeriesKind::U8 => "u8".to_owned(),
        crate::classify::SeriesKind::I8 => "i8".to_owned(),
        crate::classify::SeriesKind::U16 => "u16".to_owned(),
        crate::classify::SeriesKind::I16 => "i16".to_owned(),
        crate::classify::SeriesKind::U32 => "u32".to_owned(),
        crate::classify::SeriesKind::I32 => "i32".to_owned(),
        crate::classify::SeriesKind::U64 => "u64".to_owned(),
        crate::classify::SeriesKind::I64 => "i64".to_owned(),
        crate::classify::SeriesKind::F32 => "f32".to_owned(),
        crate::classify::SeriesKind::F64 => "f64".to_owned(),
        crate::classify::SeriesKind::Date => "date".to_owned(),
        crate::classify::SeriesKind::Time => "time".to_owned(),
        crate::classify::SeriesKind::Datetime => "datetime".to_owned(),
        crate::classify::SeriesKind::Timestamp => "timestamp".to_owned(),
        crate::classify::SeriesKind::Duration => "duration".to_owned(),
        crate::classify::SeriesKind::Symbol => "sym".to_owned(),
        crate::classify::SeriesKind::Str => "str".to_owned(),
        crate::classify::SeriesKind::Null => "null".to_owned(),
    }
}

/// The exact decimal an integer denotes.
pub open spec fn dec_of_int(v: int) -> Dec {
    crate::dec::dec_canon(
        v < 0,
        (if v < 0 {
            -v
        } else {
            v
        }) as nat,
        0,
    )
}

/// Builds the canonical decimal of a signed magnitude.
fn dec_from_parts(neg: bool, mag: u64) -> (r: Dec)
    ensures
        r == crate::dec::dec_canon(neg, mag as nat, 0),
        crate::dec::dec_wf(r),
{
    crate::dec::dec_canonize(neg, mag as u128, 0)
}

/// A matrix cell column equals the decimal reading of the series slots.
pub open spec fn cells_rel(d: SeriesData, cells: Seq<Dec>) -> bool {
    match d {
        SeriesData::Bool(v) => cells.len() == v@.len() && (forall|q: int|
            0 <= q < v@.len() ==> v@[q] is Some && #[trigger] cells[q] == dec_of_int(
                if v@[q]->0 {
                    1
                } else {
                    0
                },
            )),
        SeriesData::U8(v) => cells.len() == v@.len() && (forall|q: int|
            0 <= q < v@.len() ==> v@[q] is Some && #[trigger] cells[q] == dec_of_int(
                v@[q]->0 as int,
            )),
        SeriesData::I8(v) => cells.len() == v@.len() && (forall|q: int|
            0 <= q < v@.len() ==> v@[q] is Some && #[trigger] cells[q] == dec_of_int(
                v@[q]->0 as int,
            )),
        SeriesData::U16(v) => cells.len() == v@.len() && (forall|q: int|
            0 <= q < v@.len() ==> v@[q] is Some && #[trigger] cells[q] == dec_of_int(
                v@[q]->0 as int,
            )),
        SeriesData::I16(v) => cells.len() == v@.len() && (forall|q: int|
            0 <= q < v@.len() ==> v@[q] is Some && #[trigger] cells[q] == dec_of_int(
                v@[q]->0 as int,
            )),
        SeriesData::U32(v) => cells.len() == v@.len() && (forall|q: int|
            0 <= q < v@.len() ==> v@[q] is Some && #[trigger] cells[q] == dec_of_int(
                v@[q]->0 as int,
            )),
        SeriesData::I32(v) => cells.len() == v@.len() && (forall|q: int|
            0 <= q < v@.len() ==> v@[q] is Some && #[trigger] cells[q] == dec_of_int(
                v@[q]->0 as int,
            )),
        SeriesData::U64(v) => cells.len() == v@.len() && (forall|q: int|
            0 <= q < v@.len() ==> v@[q] is Some && #[trigger] cells[q] == dec_of_int(
                v@[q]->0 as int,
            )),
        SeriesData::I64(v) => cells.len() == v@.len() && (forall|q: int|
            0 <= q < v@.len() ==> v@[q] is Some && #[trigger] cells[q] == dec_of_int(
                v@[q]->0 as int,
            )),
        SeriesData::F32(v) => cells.len() == v@.len() && (forall|q: int|
            0 <= q < v@.len() ==> v@[q] is Some && #[trigger] cells[q] == v@[q]->0),
        SeriesData::F64(v) => cells.len() == v@.len() && (forall|q: int|
            0 <= q < v@.len() ==> v@[q] is Some && #[trigger] cells[q] == v@[q]->0),
        _ => false,
    }
}

/// Whether numeric or boolean slots carry no absent value.
pub open spec fn data_no_null(d: SeriesData) -> bool {
    match d {
        SeriesData::Bool(v) => forall|q: int| 0 <= q < v@.len() ==> (#[trigger] v@[q]) is Some,
        SeriesData::U8(v) => forall|q: int| 0 <= q < v@.len() ==> (#[trigger] v@[q]) is Some,
        SeriesData::I8(v) => forall|q: int| 0 <= q < v@.len() ==> (#[trigger] v@[q]) is Some,
        SeriesData::U16(v) => forall|q: int| 0 <= q < v@.len() ==> (#[trigger] v@[q]) is Some,
        SeriesData::I16(v) => forall|q: int| 0 <= q < v@.len() ==> (#[trigger] v@[q]) is Some,
        SeriesData::U32(v) => forall|q: int| 0 <= q < v@.len() ==> (#[trigger] v@[q]) is Some,
        SeriesData::I32(v) => forall|q: int| 0 <= q < v@.len() ==> (#[trigger] v@[q]) is Some,
        SeriesData::U64(v) => forall|q: int| 0 <= q < v@.len() ==> (#[trigger] v@[q]) is Some,
        SeriesData::I64(v) => forall|q: int| 0 <= q < v@.len() ==> (#[trigger] v@[q]) is Some,
        SeriesData::F32(v) => forall|q: int| 0 <= q < v@.len() ==> (#[trigger] v@[q]) is Some,
        SeriesData::F64(v) => forall|q: int| 0 <= q < v@.len() ==> (#[trigger] v@[q]) is Some,
        _ => true,
    }
}

/// Converts a numeric or boolean series into exact decimal cells; fails on
/// an absent slot.
pub fn series_to_cells(s: &Series) -> (r: Result<Vec<Dec>, ()>)
    requires
        kind_is_numeric(series_spec_kind(s.data)) || series_spec_kind(s.data) is Bool,
    ensures
        r is Ok <==> data_no_null(s.data),
        r matches Ok(v) ==> cells_rel(s.data, v@) && v@.len() == series_spec_len(s.data),
{
    match &s.data {
        SeriesData::Bool(v) => {
            let m = v.len();
            let mut out: Vec<Dec> = Vec::new();
            let mut k: usize = 0;
            while k < m
                invariant
                    s.data == SeriesData::Bool(*v),
                    k <= m,
                    m == v@.len(),
                    out@.len() == k,
                    forall|q: int| 0 <= q < k ==> v@[q] is Some,
                    forall|q: int|
                        0 <= q < k ==> #[trigger] out@[q] == dec_of_int(
                            if v@[q]->0 {
                                1
                            } else {
                                0
                            },
                        ),
                decreases m - k,
            {
                match v[k] {
                    Some(b) => {
                        let cell = dec_from_parts(
                            false,
                            if b {
                                1
                            } else {
                                0
                            },
                        );
                        out.push(cell);
                    },
                    None => {
                        return Err(());
                    },
                }
                k = k + 1;
            }
            Ok(out)
        },
        SeriesData::U8(v) => {
            let m = v.len();
            let mut out: Vec<Dec> = Vec::new();
            let mut k: usize = 0;
            while k < m
                invariant
                    s.data == SeriesData::U8(*v),
                    k <= m,
                    m == v@.len(),
                    out@.len() == k,
                    forall|q: int| 0 <= q < k ==> v@[q] is Some,
                    forall|q: int|
                        0 <= q < k ==> #[trigger] out@[q] == dec_of_int(v@[q]->0 as int),
                decreases m - k,
            {
                match v[k] {
                    Some(x) => {
                        let cell = dec_from_parts(false, x as u64);
                        out.push(cell);
                    },
                    None => {
                        return Err(());
                    },
                }
                k = k + 1;
            }
            Ok(out)
        },
        SeriesData::I8(v) => {
            let m = v.len();
            let mut out: Vec<Dec> = Vec::new();
            let mut k: usize = 0;
            while k < m
                invariant
                    s.data == SeriesData::I8(*v),
                    k <= m,
                    m == v@.len(),
                    out@.len() == k,
                    forall|q: int| 0 <= q < k ==> v@[q] is Some,
                    forall|q: int|
                        0 <= q < k ==> #[trigger] out@[q] == dec_of_int(v@[q]->0 as int),
                decreases m - k,
            {
                match v[k] {
                    Some(x) => {
                        let neg = x < 0;
                    let mag: u64 = if x >= 0 {
                        x as u64
                    } else {
                        (-(x as i128)) as u64
                    };
                    let cell = dec_from_parts(neg, mag);
                        out.push(cell);
                    },
                    None => {
                        return Err(());
                    },
                }
                k = k + 1;
            }
            Ok(out)
        },
        SeriesData::U16(v) => {
            let m = v.len();
            let mut out: Vec<Dec> = Vec::new();
            let mut k: usize = 0;
            while k < m
                invariant
                    s.data == SeriesData::U16(*v),
                    k <= m,
                    m == v@.len(),
                    out@.len() == k,
                    forall|q: int| 0 <= q < k ==> v@[q] is Some,
                    forall|q: int|
                        0 <= q < k ==> #[trigger] out@[q] == dec_of_int(v@[q]->0 as int),
                decreases m - k,
            {
                match v[k] {
                    Some(x) => {
                        let cell = dec_from_parts(false, x as u64);
                        out.push(cell);
                    },
                    None => {
                        return Err(());
                    },
                }
                k = k + 1;
            }
            Ok(out)
        },
        SeriesData::I16(v) => {
            let m = v.len();
            let mut out: Vec<Dec> = Vec::new();
            let mut k: usize = 0;
            while k < m
                invariant
                    s.data == SeriesData::I16(*v),
                    k <= m,
                    m == v@.len(),
                    out@.len() == k,
                    forall|q: int| 0 <= q < k ==> v@[q] is Some,
                    forall|q: int|
                        0 <= q < k ==> #[trigger] out@[q] == dec_of_int(v@[q]->0 as int),
                decreases m - k,
            {
                match v[k] {
                    Some(x) => {
                        let neg = x < 0;
                    let mag: u64 = if x >= 0 {
                        x as u64
                    } else {
                        (-(x as i128)) as u64
                    };
                    let cell = dec_from_parts(neg, mag);
                        out.push(cell);
                    },
                    None => {
                        return Err(());
                    },
                }
                k = k + 1;
            }
            Ok(out)
        },
        SeriesData::U32(v) => {
            let m = v.len();
            let mut out: Vec<Dec> = Vec::new();
            let mut k: usize = 0;
            while k < m
                invariant
                    s.data == SeriesData::U32(*v),
                    k <= m,
                    m == v@.len(),
                    out@.len() == k,
                    forall|q: int| 0 <= q < k ==> v@[q] is Some,
                    forall|q: int|
                        0 <= q < k ==> #[trigger] out@[q] == dec_of_int(v@[q]->0 as int),
                decreases m - k,
            {
                match v[k] {
                    Some(x) => {
                        let cell = dec_from_parts(false, x as u64);
                        out.push(cell);
                    },
                    None => {
                        return Err(());
                    },
                }
                k = k + 1;
            }
            Ok(out)
        },
        SeriesData::I32(v) => {
            let m = v.len();
            let mut out: Vec<Dec> = Vec::new();
            let mut k: usize = 0;
            while k < m
                invariant
                    s.data == SeriesData::I32(*v),
                    k <= m,
                    m == v@.len(),
                    out@.len() == k,
                    forall|q: int| 0 <= q < k ==> v@[q] is Some,
                    forall|q: int|
                        0 <= q < k ==> #[trigger] out@[q] == dec_of_int(v@[q]->0 as int),
                decreases m - k,
            {
                match v[k] {
                    Some(x) => {
                        let neg = x < 0;
                    let mag: u64 = if x >= 0 {
                        x as u64
                    } else {
                        (-(x as i128)) as u64
                    };
                    let cell = dec_from_parts(neg, mag);
                        out.push(cell);
                    },
                    None => {
                        return Err(());
                    },
                }
                k = k + 1;
            }
            Ok(out)
        },
        SeriesData::U64(v) => {
            let m = v.len();
            let mut out: Vec<Dec> = Vec::new();
            let mut k: usize = 0;
            while k < m
                invariant
                    s.data == SeriesData::U64(*v),
                    k <= m,
                    m == v@.len(),
                    out@.len() == k,
                    forall|q: int| 0 <= q < k ==> v@[q] is Some,
                    forall|q: int|
                        0 <= q < k ==> #[trigger] out@[q] == dec_of_int(v@[q]->0 as int),
                decreases m - k,
            {
                match v[k] {
                    Some(x) => {
                        let cell = dec_from_parts(false, x as u64);
                        out.push(cell);
                    },
                    None => {
                        return Err(());
                    },
                }
                k = k + 1;
            }
            Ok(out)
        },
        SeriesData::I64(v) => {
            let m = v.len();
            let mut out: Vec<Dec> = Vec::new();
            let mut k: usize = 0;
            while k < m
                invariant
                    s.data == SeriesData::I64(*v),
                    k <= m,
                    m == v@.len(),
                    out@.len() == k,
                    forall|q: int| 0 <= q < k ==> v@[q] is Some,
                    forall|q: int|
                        0 <= q < k ==> #[trigger] out@[q] == dec_of_int(v@[q]->0 as int),
                decreases m - k,
            {
                match v[k] {
                    Some(x) => {
                        let neg = x < 0;
                    let mag: u64 = if x >= 0 {
                        x as u64
                    } else {
                        (-(x as i128)) as u64
                    };
                    let cell = dec_from_parts(neg, mag);
                        out.push(cell);
                    },
                    None => {
                        return Err(());
                    },
                }
                k = k + 1;
            }
            Ok(out)
        },
        SeriesData::F32(v) => {
            let m = v.len();
            let mut out: Vec<Dec> = Vec::new();
            let mut k: usize = 0;
            while k < m
                invariant
                    s.data == SeriesData::F32(*v),
                    k <= m,
                    m == v@.len(),
                    out@.len() == k,
                    forall|q: int| 0 <= q < k ==> v@[q] is Some,
                    forall|q: int| 0 <= q < k ==> #[trigger] out@[q] == v@[q]->0,
                decreases m - k,
            {
                match v[k] {
                    Some(d) => {
                        out.push(d);
                    },
                    None => {
                        return Err(());
                    },
                }
                k = k + 1;
            }
            Ok(out)
        },
        SeriesData::F64(v) => {
            let m = v.len();
            let mut out: Vec<Dec> = Vec::new();
            let mut k: usize = 0;
            while k < m
                invariant
                    s.data == SeriesData::F64(*v),
                    k <= m,
                    m == v@.len(),
                    out@.len() == k,
                    forall|q: int| 0 <= q < k ==> v@[q] is Some,
                    forall|q: int| 0 <= q < k ==> #[trigger] out@[q] == v@[q]->0,
                decreases m - k,
            {
                match v[k] {
                    Some(d) => {
                        out.push(d);
                    },
                    None => {
                        return Err(());
                    },
                }
                k = k + 1;
            }
            Ok(out)
        },
        _ => {
            proof {
                assert(false);
            }
            Err(())
        },
    }
}


/// Whether a matrix accepts a column: any non-constant expression, a numeric
/// or boolean series, or a numeric or boolean scalar.
pub open spec fn mat_col_ok(c: DfCol) -> bool {
    c.exp matches AstNode::J(j) ==> match j {
        J::Series(s) => kind_is_numeric(series_spec_kind(s.data)) || series_spec_kind(s.data)
            is Bool,
        _ => j is I64 || j is F64 || j is Boolean,
    }
}

/// The resolved type name of a refused matrix column.
pub open spec fn mat_type_name(c: DfCol) -> Seq<char> {
    match c.exp {
        AstNode::J(j) => match j {
            J::Series(s) => kind_name(series_spec_kind(s.data)),
            _ => spec_type_name(j),
        },
        _ => Seq::empty(),
    }
}

/// The error of a refused matrix column: at the column's own offset, naming
/// the column's resolved type.
pub open spec fn mat_err_at(cols: Seq<DfCol>, e: SpanErr) -> bool {
    exists|i: int|
        #![trigger cols[i]]
        0 <= i < cols.len() && !mat_col_ok(cols[i]) && e.pos == cols[i].start && e.msg@
            == "Requires numeric data type, got '"@ + mat_type_name(cols[i]) + "'"@ && (forall|
            j: int,
        |
            0 <= j < i ==> mat_col_ok(#[trigger] cols[j]))
}

pub open spec fn mat_all_ok(cols: Seq<DfCol>) -> bool {
    forall|i: int| 0 <= i < cols.len() ==> mat_col_ok(#[trigger] cols[i])
}

/// No absent slot in one constant column.
pub open spec fn mat_col_no_null(c: DfCol) -> bool {
    match c.exp {
        AstNode::J(j) => match j {
            J::Series(s) => data_no_null(s.data),
            _ => true,
        },
        _ => true,
    }
}

/// No constant column of the literal has an absent slot.
pub open spec fn mat_no_null(cols: Seq<DfCol>) -> bool {
    forall|i: int| 0 <= i < cols.len() ==> mat_col_no_null(#[trigger] cols[i])
}

/// What each column contributes to a deferred matrix node; names are always
/// synthesized by position.
pub open spec fn mat_deferred_col(c: DfCol, i: int, a: AstNode) -> bool {
    if df_col_const(c) {
        a matches AstNode::J(j2) && (j2 matches J::Series(s) && s.name@ == col_default_name(
            i as nat,
        ) && (c.exp matches AstNode::J(j) && match j {
            J::Series(s0) => s.data == s0.data,
            _ => scalar_as_series(j, s.data),
        }))
    } else {
        a matches AstNode::Series { name: nm, exp } && nm@ == col_default_name(i as nat) && *exp
            == c.exp
    }
}

/// The decimal cells a constant column folds to.
pub open spec fn mat_cells_of(c: DfCol, cells: Seq<Dec>) -> bool {
    c.exp matches AstNode::J(j) && match j {
        J::Series(s0) => cells_rel(s0.data, cells),
        J::I64(v) => cells =~= seq![dec_of_int(v as int)],
        J::F64(d) => cells =~= seq![d],
        J::Boolean(b) => cells =~= seq![
            dec_of_int(
                if b {
                    1
                } else {
                    0
                },
            ),
        ],
        _ => false,
    }
}

fn mat_type_err(c: &DfCol) -> (r: SpanErr)
    requires
        c.exp is J,
    ensures
        r.pos == c.start,
        r.msg@ == "Requires numeric data type, got '"@ + mat_type_name(*c) + "'"@,
{
    let mut m = String::new();
    m.append("Requires numeric data type, got '");
    match &c.exp {
        AstNode::J(j) => match j {
            J::Series(s) => {
                let kn = kind_name_exec(s.kind());
                m.append(kn.as_str());
            },
            other => {
                let tn = other.get_type_name();
                m.append(tn.as_str());
            },
        },
        _ => {},
    }
    m.append("'");
    proof {
        assert(m@ =~= "Requires numeric data type, got '"@ + mat_type_name(*c) + "'"@);
    }
    SpanErr { msg: m, pos: c.start }
}

/// Builds a matrix literal from its walked columns: every constant column
/// must be numeric or boolean - any other resolved type fails at that
/// column, naming its type - and when all columns are constant the literal
/// folds to a two-dimensional array of exact decimals, one stored row per
/// source column.
pub fn build_matrix(cols: Vec<DfCol>, span: usize) -> (r: Result<AstNode, SpanErr>)
    ensures
        r is Ok <==> mat_all_ok(cols@) && (df_all_const(cols@) ==> (mat_no_null(cols@)
            && df_lens_equal(cols@))),
        !mat_all_ok(cols@) ==> (r matches Err(e) && mat_err_at(cols@, e)),
        r matches Ok(a) ==> (df_all_const(cols@) ==> (a matches AstNode::J(j) && (
        j matches J::Matrix(mx) && mx.columns@.len() == cols@.len() && (cols@.len() > 0
            ==> mx.n_rows == df_col_len(cols@[0])) && (forall|i: int|
            0 <= i < cols@.len() ==> mat_cells_of(#[trigger] cols@[i], mx.columns@[i]@))))),
        r matches Ok(a) ==> (!df_all_const(cols@) ==> (a matches AstNode::Matrix(exps)
            && exps@.len() == cols@.len() && (forall|i: int|
            0 <= i < cols@.len() ==> mat_deferred_col(#[trigger] cols@[i], i, exps@[i])))),
        r matches Err(e) ==> e.pos == span || mat_err_at(cols@, e),
{
    let ghost orig = cols@;
    let n = cols.len();
    let mut pending = cols;
    let mut col_exps: Vec<AstNode> = Vec::new();
    let mut all_series = true;
    let mut i: usize = 0;
    while i < n
        invariant
            orig == cols@,
            i <= n,
            n == orig.len(),
            pending@ =~= orig.subrange(i as int, n as int),
            col_exps@.len() == i,
            all_series == (forall|k: int| 0 <= k < i ==> df_col_const(#[trigger] orig[k])),
            forall|k: int| 0 <= k < i ==> mat_col_ok(#[trigger] orig[k]),
            forall|k: int|
                0 <= k < i ==> mat_deferred_col(#[trigger] orig[k], k, col_exps@[k]),
        decreases n - i,
    {
        let col = pending.remove(0);
        let ghost gcol = col;
        proof {
            assert(col == orig[i as int]);
            assert(pending@ =~= orig.subrange(i + 1, n as int));
        }
        let named = default_col_name(i);
        match col.exp {
            AstNode::J(j) => {
                match j {
                    J::Series(mut s) => {
                        if !s.is_numeric_or_bool() {
                            let e = mat_type_err(
                                &DfCol {
                                    name: None,
                                    exp: AstNode::J(J::Series(s)),
                                    start: col.start,
                                },
                            );
                            proof {
                                assert(!mat_col_ok(orig[i as int]));
                            }
                            return Err(e);
                        }
                        s.rename(named);
                        col_exps.push(AstNode::J(J::Series(s)));
                    },
                    other => {
                        let ghost gother = other;
                        let numeric = other.is_numeric() || other.is_bool();
                        if !numeric {
                            let e = mat_type_err(
                                &DfCol { name: None, exp: AstNode::J(other), start: col.start },
                            );
                            proof {
                                assert(gcol.exp == AstNode::J(gother));
                                assert(!mat_col_ok(orig[i as int]));
                            }
                            return Err(e);
                        }
                        let mut s = match other.into_series() {
                            Ok(s) => s,
                            Err(_) => {
                                proof {
                                    assert(false);
                                }
                                return Err(span_err("cannot turn into a series", span));
                            },
                        };
                        s.rename(named);
                        col_exps.push(AstNode::J(J::Series(s)));
                    },
                }
            },
            other => {
                col_exps.push(AstNode::Series { name: named, exp: Box::new(other) });
                all_series = false;
            },
        }
        i = i + 1;
    }
    if !all_series {
        return Ok(AstNode::Matrix(col_exps));
    }
    // every column is constant and numeric: fold to decimal cells
    let mut cells: Vec<Vec<Dec>> = Vec::new();
    let mut rows: usize = 0;
    let mut m: usize = 0;
    let mut col_exps = col_exps;
    while m < n
        invariant
            orig == cols@,
            m <= n,
            n == orig.len(),
            col_exps@.len() == n - m,
            cells@.len() == m,
            forall|k: int| 0 <= k < n ==> df_col_const(#[trigger] orig[k]),
            forall|k: int| 0 <= k < n ==> mat_col_ok(#[trigger] orig[k]),
            forall|k: int|
                m <= k < n ==> mat_deferred_col(#[trigger] orig[k], k, col_exps@[k - m]),
            forall|k: int| 0 <= k < m ==> mat_cells_of(#[trigger] orig[k], cells@[k]@),
            forall|k: int| 0 <= k < m ==> #[trigger] cells@[k]@.len() == df_col_len(orig[k]),
            forall|k: int| 0 <= k < m ==> mat_col_no_null(#[trigger] orig[k]),
            n > 0 && m > 0 ==> rows == df_col_len(orig[0]),
            forall|k: int| 0 <= k < m ==> df_col_len(#[trigger] orig[k]) == df_col_len(orig[0]),
        decreases n - m,
    {
        let a = col_exps.remove(0);
        let ghost ga = a;
        match a {
            AstNode::J(j) => match j {
                J::Series(s) => {
                    let converted = match series_to_cells(&s) {
                        Ok(v) => v,
                        Err(_) => {
                            proof {
                                assert(mat_deferred_col(orig[m as int], m as int, ga));
                                assert(!mat_no_null(orig));
                            }
                            return Err(span_err("matrix cannot hold missing values", span));
                        },
                    };
                    proof {
                        assert(mat_deferred_col(orig[m as int], m as int, ga));
                        lemma_mat_cell_len(orig[m as int], s, converted@);
                        assert(mat_col_no_null(orig[m as int]));
                    }
                    if m == 0 {
                        rows = converted.len();
                    } else {
                        if converted.len() != rows {
                            proof {
                                assert(df_col_len(orig[m as int]) != df_col_len(orig[0]));
                            }
                            return Err(span_err("column lengths differ", span));
                        }
                    }
                    cells.push(converted);
                },
                _ => {
                    proof {
                        assert(mat_deferred_col(orig[m as int], m as int, ga));
                        assert(false);
                    }
                    return Err(span_err("cannot turn into a series", span));
                },
            },
            _ => {
                proof {
                    assert(mat_deferred_col(orig[m as int], m as int, ga));
                    assert(false);
                }
                return Err(span_err("cannot turn into a series", span));
            },
        }
        m = m + 1;
    }
    Ok(AstNode::J(J::Matrix(Matrix { n_rows: rows, columns: cells })))
}

/// The cell relation carries slot counts over to the folded column.
proof fn lemma_mat_cell_len(c: DfCol, s: Series, cells: Seq<Dec>)
    requires
        mat_deferred_col_series(c, s),
        cells_rel(s.data, cells),
    ensures
        cells.len() == df_col_len(c),
        mat_cells_of(c, cells),
{
}

/// The series a constant matrix column was renamed into.
pub open spec fn mat_deferred_col_series(c: DfCol, s: Series) -> bool {
    c.exp matches AstNode::J(j) && match j {
        J::Series(s0) => s.data == s0.data,
        _ => scalar_as_series(j, s.data),
    }
}


/// The query kind: that of the last operation clause, `select` by default.
pub open spec fn sql_op_text(cs: Seq<SyntaxNode>) -> Seq<char>
    decreases cs.len(),
{
    if cs.len() == 0 {
        "select"@
    } else if cs.last().rule is SelectOp {
        "select"@
    } else if cs.last().rule is UpdateOp {
        "update"@
    } else if cs.last().rule is DeleteOp {
        "delete"@
    } else {
        sql_op_text(cs.drop_last())
    }
}

/// Walks one element of a list literal: a bare operator becomes an operator
/// node carrying the token text at its offset, anything else an expression.
pub fn parse_list(node: &SyntaxNode, source_id: usize) -> (r: Result<AstNode, SpanErr>)
    ensures
        r is Ok <==> list_item_ok(*node),
        r matches Ok(a) ==> list_item_walked(*node, a, source_id),
    decreases *node, 3int,
{
    match node.rule {
        Rule::BinaryOp => Ok(
            AstNode::Op { name: node.text.clone(), start: node.start, source_id },
        ),
        _ => parse_exp(node, source_id),
    }
}

/// Walks one SQL projection or grouping column: a renamed expression keeps
/// its declared name, a bare column name becomes an identifier, anything
/// else its walked expression.
pub fn parse_sql_col_exp(node: &SyntaxNode, source_id: usize) -> (r: Result<AstNode, SpanErr>)
    ensures
        r is Ok <==> col_ok(*node),
        r matches Ok(a) ==> col_walked(*node, a, source_id),
    decreases *node, 3int,
{
    match node.rule {
        Rule::SeriesExp => {
            if node.children.len() >= 1 {
                proof {
                    lemma_child_smaller(*node, 0);
                }
                parse_sql_col_exp(&node.children[0], source_id)
            } else {
                Err(span_err("Unexpected sql column", node.start))
            }
        },
        Rule::RenameSeriesExp => {
            if node.children.len() >= 2 {
                proof {
                    lemma_child_smaller(*node, 1);
                }
                let exp = match parse_exp(&node.children[1], source_id) {
                    Ok(x) => x,
                    Err(e) => {
                        return Err(e);
                    },
                };
                Ok(
                    AstNode::Series {
                        name: node.children[0].text.clone(),
                        exp: Box::new(exp),
                    },
                )
            } else {
                Err(span_err("Unexpected sql column", node.start))
            }
        },
        Rule::SeriesName => Ok(
            AstNode::Id { name: node.text.clone(), start: node.start, source_id },
        ),
        _ => parse_exp(node, source_id),
    }
}


/// Walks every expression of one clause, in order.
fn walk_clause_exps(ch: &SyntaxNode, source_id: usize) -> (r: Result<Vec<AstNode>, SpanErr>)
    ensures
        r is Ok <==> (forall|k: int| 0 <= k < ch.children@.len() ==> exp_ok(#[trigger] ch.children@[k])),
        r matches Ok(v) ==> clause_exps_walked(*ch, v@, source_id),
    decreases *ch, 0int,
{
    let m = ch.children.len();
    let mut acc: Vec<AstNode> = Vec::new();
    let mut k: usize = 0;
    while k < m
        invariant
            k <= m,
            m == ch.children@.len(),
            acc@.len() == k,
            forall|j: int|
                0 <= j < k ==> walked_exp(#[trigger] ch.children@[j], acc@[j], source_id),
            forall|j: int| 0 <= j < k ==> exp_ok(#[trigger] ch.children@[j]),
        decreases m - k,
    {
        proof {
            lemma_child_smaller(*ch, k as int);
        }
        match parse_exp(&ch.children[k], source_id) {
            Ok(x) => {
                acc.push(x);
            },
            Err(e) => {
                return Err(e);
            },
        }
        k = k + 1;
    }
    Ok(acc)
}

/// Walks every column of one projection or grouping clause, in order.
fn walk_clause_cols(ch: &SyntaxNode, source_id: usize) -> (r: Result<Vec<AstNode>, SpanErr>)
    ensures
        r is Ok <==> (forall|k: int| 0 <= k < ch.children@.len() ==> col_ok(#[trigger] ch.children@[k])),
        r matches Ok(v) ==> clause_cols_walked(*ch, v@, source_id),
    decreases *ch, 0int,
{
    let m = ch.children.len();
    let mut acc: Vec<AstNode> = Vec::new();
    let mut k: usize = 0;
    while k < m
        invariant
            k <= m,
            m == ch.children@.len(),
            acc@.len() == k,
            forall|j: int| 0 <= j < k ==> col_walked(#[trigger] ch.children@[j], acc@[j], source_id),
            forall|j: int| 0 <= j < k ==> col_ok(#[trigger] ch.children@[j]),
        decreases m - k,
    {
        proof {
            lemma_child_smaller(*ch, k as int);
        }
        match parse_sql_col_exp(&ch.children[k], source_id) {
            Ok(x) => {
                acc.push(x);
            },
            Err(e) => {
                return Err(e);
            },
        }
        k = k + 1;
    }
    Ok(acc)
}

/// Turns each sort specifier into an identifier carrying its text verbatim.
fn walk_sorts(ch: &SyntaxNode, source_id: usize) -> (r: Vec<AstNode>)
    ensures
        clause_sorts_walked(*ch, r@, source_id),
{
    let m = ch.children.len();
    let mut acc: Vec<AstNode> = Vec::new();
    let mut k: usize = 0;
    while k < m
        invariant
            k <= m,
            m == ch.children@.len(),
            acc@.len() == k,
            forall|j: int|
                0 <= j < k ==> #[trigger] acc@[j] == (AstNode::Id {
                    name: ch.children@[j].text,
                    start: ch.children@[j].start,
                    source_id,
                }),
        decreases m - k,
    {
        acc.push(
            AstNode::Id {
                name: ch.children[k].text.clone(),
                start: ch.children[k].start,
                source_id,
            },
        );
        k = k + 1;
    }
    acc
}

/// Decomposes an SQL query node: the query kind comes from the last
/// operation clause (`select` by default); the source and the limit come
/// from the last `from`/`take` clauses, filters, groups and sorts from the
/// last clause of each kind, and the projections accumulate across the
/// operation clauses in source order.
#[verifier::rlimit(100)]
#[verifier::spinoff_prover]
pub fn parse_sql(node: &SyntaxNode, source_id: usize) -> (r: Result<AstNode, SpanErr>)
    ensures
        r is Ok <==> sql_ok(*node),
        r matches Ok(a) ==> sql_walked(*node, a, source_id),
    decreases *node, 1int,
{
    let n = node.children.len();
    let mut op: String = "select".to_owned();
    let mut op_exp: Vec<AstNode> = Vec::new();
    let mut group_exp: Vec<AstNode> = Vec::new();
    let mut from_exp: AstNode = AstNode::Skip;
    let mut filter_exp: Vec<AstNode> = Vec::new();
    let mut sort_exp: Vec<AstNode> = Vec::new();
    let mut take_exp: Option<AstNode> = None;
    let mut i: usize = 0;
    proof {
        assert(node.children@.take(0) =~= Seq::<SyntaxNode>::empty());
    }
    while i < n
        invariant
            n == node.children@.len(),
            i <= n,
            op@ == sql_op_text(node.children@.take(i as int)),
            sql_from_walked(node.children@.take(i as int), from_exp, source_id),
            sql_take_walked(
                node.children@.take(i as int),
                if take_exp is Some {
                    take_exp->0
                } else {
                    AstNode::Skip
                },
                source_id,
            ),
            sql_last_exps_walked(
                node.children@.take(i as int),
                Rule::FilterExp,
                filter_exp@,
                source_id,
            ),
            sql_last_cols_walked(
                node.children@.take(i as int),
                Rule::GroupExp,
                group_exp@,
                source_id,
            ),
            sql_last_sorts_walked(node.children@.take(i as int), sort_exp@, source_id),
            sql_ops_walked(node.children@.take(i as int), op_exp@, source_id),
            forall|j: int| 0 <= j < i ==> sql_clause_ok(#[trigger] node.children@[j]),
        decreases n - i,
    {
        proof {
            lemma_child_smaller(*node, i as int);
            assert(node.children@.take(i + 1).drop_last() =~= node.children@.take(i as int));
            assert(node.children@.take(i + 1).last() == node.children@[i as int]);
        }
        let some = &node.children[i];
        match some.rule {
            Rule::SelectOp | Rule::UpdateOp | Rule::DeleteOp => {
                op = match some.rule {
                    Rule::SelectOp => "select".to_owned(),
                    Rule::UpdateOp => "update".to_owned(),
                    _ => "delete".to_owned(),
                };
                let ghost base = op_exp@;
                let mut cols = match walk_clause_cols(some, source_id) {
                    Ok(v) => v,
                    Err(e) => {
                        proof {
                            assert(!sql_clause_ok(node.children@[i as int]));
                            assert(!sql_ok(*node));
                        }
                        return Err(e);
                    },
                };
                let ghost m = some.children@.len() as int;
                op_exp.append(&mut cols);
                proof {
                    assert(op_exp@.take(op_exp@.len() - m) =~= base);
                    assert(op_exp@.skip(op_exp@.len() - m) =~= op_exp@.subrange(
                        base.len() as int,
                        op_exp@.len() as int,
                    ));
                    assert(clause_cols_walked(
                        node.children@[i as int],
                        op_exp@.skip(op_exp@.len() - m),
                        source_id,
                    ));
                    assert(sql_ops_walked(node.children@.take(i + 1), op_exp@, source_id));
                }
            },
            Rule::GroupExp => {
                group_exp = match walk_clause_cols(some, source_id) {
                    Ok(v) => v,
                    Err(e) => {
                        proof {
                            assert(!sql_clause_ok(node.children@[i as int]));
                            assert(!sql_ok(*node));
                        }
                        return Err(e);
                    },
                };
            },
            Rule::FromExp => {
                if some.children.len() < 1 {
                    proof {
                        assert(!sql_clause_ok(node.children@[i as int]));
                        assert(!sql_ok(*node));
                    }
                    return Err(span_err("Unexpected sql", some.start));
                }
                proof {
                    lemma_child_smaller(*node, i as int);
                    lemma_child_smaller(node.children@[i as int], 0);
                }
                from_exp = match parse_exp(&some.children[0], source_id) {
                    Ok(x) => x,
                    Err(e) => {
                        proof {
                            assert(!sql_clause_ok(node.children@[i as int]));
                            assert(!sql_ok(*node));
                        }
                        return Err(e);
                    },
                };
            },
            Rule::FilterExp => {
                filter_exp = match walk_clause_exps(some, source_id) {
                    Ok(v) => v,
                    Err(e) => {
                        proof {
                            assert(!sql_clause_ok(node.children@[i as int]));
                            assert(!sql_ok(*node));
                        }
                        return Err(e);
                    },
                };
            },
            Rule::SortOp => {
                sort_exp = walk_sorts(some, source_id);
            },
            Rule::TakeOp => {
                if some.children.len() < 1 {
                    proof {
                        assert(!sql_clause_ok(node.children@[i as int]));
                        assert(!sql_ok(*node));
                    }
                    return Err(span_err("Unexpected sql", some.start));
                }
                proof {
                    lemma_child_smaller(*node, i as int);
                    lemma_child_smaller(node.children@[i as int], 0);
                }
                let t = match parse_exp(&some.children[0], source_id) {
                    Ok(x) => x,
                    Err(e) => {
                        proof {
                            assert(!sql_clause_ok(node.children@[i as int]));
                            assert(!sql_ok(*node));
                        }
                        return Err(e);
                    },
                };
                take_exp = Some(t);
            },
            _ => {
                proof {
                    assert(!sql_clause_ok(node.children@[i as int]));
                    assert(!sql_ok(*node));
                }
                return Err(span_err("Unexpected sql", some.start));
            },
        }
        proof {
            let pre = node.children@.take(i as int);
            let post = node.children@.take(i + 1);
            assert(post.drop_last() =~= pre);
            assert(post.last() == node.children@[i as int]);
            assert(sql_clause_ok(node.children@[i as int]));
            assert(sql_last_exps_walked(post, Rule::FilterExp, filter_exp@, source_id));
            assert(sql_last_cols_walked(post, Rule::GroupExp, group_exp@, source_id));
            assert(sql_last_sorts_walked(post, sort_exp@, source_id));
            assert(sql_ops_walked(post, op_exp@, source_id));
            assert(sql_from_walked(post, from_exp, source_id));
            assert(sql_take_walked(
                post,
                if take_exp is Some {
                    take_exp->0
                } else {
                    AstNode::Skip
                },
                source_id,
            ));
            assert(op@ == sql_op_text(post));
        }
        i = i + 1;
    }
    proof {
        assert(node.children@.take(n as int) =~= node.children@);
    }
    let take = match take_exp {
        Some(t) => t,
        None => AstNode::Skip,
    };
    Ok(
        AstNode::Sql {
            op,
            from: Box::new(from_exp),
            filters: filter_exp,
            groups: group_exp,
            ops: op_exp,
            sorts: sort_exp,
            take: Box::new(take),
            start: node.start,
            source_id,
        },
    )
}

/// Walks one syntax node into its AST node. The walk succeeds exactly when
/// `exp_ok` accepts the node, the result is tied to the walked children by
/// `walked_exp`, and a result is a constant value exactly when the syntax
/// resolves to one (`const_facts`). A matrix literal with a constant column
/// of a type no matrix accepts fails at that column, naming the type; a
/// dataframe literal whose constant columns collide in name or length fails
/// at the literal's own offset.
pub fn parse_exp(node: &SyntaxNode, source_id: usize) -> (r: Result<AstNode, SpanErr>)
    ensures
        r is Ok <==> exp_ok(*node),
        r matches Ok(a) ==> walked_exp(*node, a, source_id),
        r matches Ok(a) ==> const_facts(*node, a),
        node.rule is Matrix && (forall|i: int|
            0 <= i < node.children@.len() ==> mat_col_node_ok(#[trigger] node.children@[i]))
            && !mat_types_ok(*node) ==> (r matches Err(e) && mat_syn_err_at(*node, e)),
        node.rule is Dataframe && (forall|i: int|
            0 <= i < node.children@.len() ==> df_col_ok(#[trigger] node.children@[i])) && df_conv_ok(
            *node,
        ) && df_all_const_syn(*node) && !df_shape_ok(*node) ==> (r matches Err(e) && e.pos
            == node.start),
    decreases *node, 2int,
{
    match node.rule {
        Rule::Exp | Rule::BracketExp => {
            if node.children.len() >= 1 {
                proof {
                    lemma_child_smaller(*node, 0);
                }
                match parse_exp(&node.children[0], source_id) {
                    Ok(a) => Ok(a),
                    Err(e) => Err(e),
                }
            } else {
                Err(span_err("Unexpected expression", node.start))
            }
        },
        Rule::Integer | Rule::Decimal | Rule::Boolean | Rule::Date | Rule::Time | Rule::Datetime
            | Rule::Timestamp | Rule::Duration | Rule::Enum | Rule::Str | Rule::NoneLit => {
            match parse_j(node) {
                Ok(a) => {
                    proof {
                        let j = a->J_0;
                        lemma_literal_const_facts(*node, j);
                    }
                    Ok(a)
                },
                Err(e) => Err(e),
            }
        },
        Rule::Id => Ok(AstNode::Id { name: node.text.clone(), start: node.start, source_id }),
        Rule::Series => {
            match parse_series(node) {
                Ok(a) => {
                    proof {
                        let s = a->J_0->Series_0;
                        lemma_series_content_facts(
                            crate::series::series_kind_of(elems_of(node.children@)),
                            elems_of(node.children@),
                            s.data,
                        );
                    }
                    Ok(a)
                },
                Err(e) => Err(e),
            }
        },
        Rule::AssignmentExp => walk_assignment(node, source_id),
        Rule::UnaryExp => {
            if node.children.len() != 2 {
                return Err(span_err("Unexpected expression", node.start));
            }
            proof {
                lemma_child_smaller(*node, 0);
                lemma_child_smaller(*node, 1);
            }
            let f = match parse_exp(&node.children[0], source_id) {
                Ok(a) => a,
                Err(e) => {
                    return Err(e);
                },
            };
            let exp = match parse_exp(&node.children[1], source_id) {
                Ok(a) => a,
                Err(e) => {
                    return Err(e);
                },
            };
            Ok(AstNode::UnaryOp { op: Box::new(f), exp: Box::new(exp) })
        },
        Rule::BinaryExp => {
            if node.children.len() != 3 {
                return Err(span_err("Unexpected expression", node.start));
            }
            proof {
                lemma_child_smaller(*node, 0);
                lemma_child_smaller(*node, 1);
                lemma_child_smaller(*node, 2);
            }
            let lhs = match parse_exp(&node.children[0], source_id) {
                Ok(a) => a,
                Err(e) => {
                    return Err(e);
                },
            };
            let op = match parse_binary_op(&node.children[1], source_id) {
                Ok(a) => a,
                Err(e) => {
                    return Err(e);
                },
            };
            let rhs = match parse_exp(&node.children[2], source_id) {
                Ok(a) => a,
                Err(e) => {
                    return Err(e);
                },
            };
            Ok(AstNode::BinOp { op: Box::new(op), lhs: Box::new(lhs), rhs: Box::new(rhs) })
        },
        Rule::Fn => walk_fn_literal(node, source_id),
        Rule::FnCall => walk_call(node, source_id),
        Rule::IfExp | Rule::WhileExp => walk_cond(node, source_id),
        Rule::TryExp => walk_try(node, source_id),
        Rule::ReturnExp => {
            if node.children.len() != 1 {
                return Err(span_err("Unexpected expression", node.start));
            }
            proof {
                lemma_child_smaller(*node, 0);
            }
            match parse_exp(&node.children[0], source_id) {
                Ok(a) => Ok(AstNode::Return(Box::new(a))),
                Err(e) => Err(e),
            }
        },
        Rule::RaiseExp => {
            if node.children.len() != 1 {
                return Err(span_err("Unexpected expression", node.start));
            }
            proof {
                lemma_child_smaller(*node, 0);
            }
            match parse_exp(&node.children[0], source_id) {
                Ok(a) => Ok(AstNode::Raise(Box::new(a))),
                Err(e) => Err(e),
            }
        },
        Rule::Dataframe => walk_dataframe(node, source_id),
        Rule::Matrix => walk_matrix(node, source_id),
        Rule::SqlExp => parse_sql(node, source_id),
        Rule::List => walk_list_literal(node, source_id),
        Rule::Dict => walk_dict_literal(node, source_id),
        Rule::Skip => Ok(AstNode::Skip),
        _ => Err(span_err("Unexpected expression", node.start)),
    }
}


/// Walks an assignment: a call-like target rewrites into an indexed
/// assignment with the call's arguments as index expressions.
fn walk_assignment(node: &SyntaxNode, source_id: usize) -> (r: Result<AstNode, SpanErr>)
    requires
        node.rule is AssignmentExp,
    ensures
        r is Ok <==> exp_ok(*node),
        r matches Ok(a) ==> walked_exp(*node, a, source_id),
        r matches Ok(a) ==> const_facts(*node, a),
    decreases *node, 1int,
{
    if node.children.len() != 2 {
        return Err(span_err("Unexpected expression", node.start));
    }
    let target = &node.children[0];
    proof {
        lemma_child_smaller(*node, 0);
        lemma_child_smaller(*node, 1);
    }
    if matches!(target.rule, Rule::FnCall) {
        if target.children.len() < 1 {
            return Err(span_err("Unexpected expression", node.start));
        }
        let id = target.children[0].text.clone();
        let mut indices: Vec<AstNode> = Vec::new();
        let tn = target.children.len();
        let mut k: usize = 1;
        while k < tn
            invariant
                1 <= k <= tn,
                tn == node.children@[0].children@.len(),
                target == &node.children@[0],
                node.children@[0].rule is FnCall,
                node.children@.len() == 2,
                node.rule is AssignmentExp,
                indices@.len() == k - 1,
                forall|j: int|
                    1 <= j < k ==> walked_arg(
                        #[trigger] node.children@[0].children@[j],
                        indices@[j - 1],
                        source_id,
                    ),
                forall|j: int| 1 <= j < k ==> arg_ok(#[trigger] node.children@[0].children@[j]),
            decreases tn - k,
        {
            proof {
                lemma_child_smaller(*node, 0);
                lemma_child_smaller(node.children@[0], k as int);
            }
            let arg = &target.children[k];
            if arg.children.len() != 1 {
                proof {
                    assert(!arg_ok(node.children@[0].children@[k as int]));
                    assert(!idx_args_ok(node.children@[0]));
                }
                return Err(span_err("Unexpected expression", arg.start));
            }
            proof {
                lemma_child_smaller(node.children@[0].children@[k as int], 0);
            }
            match parse_exp(&arg.children[0], source_id) {
                Ok(a) => {
                    indices.push(a);
                },
                Err(e) => {
                    proof {
                        assert(!arg_ok(node.children@[0].children@[k as int]));
                        assert(!idx_args_ok(node.children@[0]));
                    }
                    return Err(e);
                },
            }
            k = k + 1;
        }
        let exp = match parse_exp(&node.children[1], source_id) {
            Ok(a) => a,
            Err(e) => {
                return Err(e);
            },
        };
        let result = AstNode::IndexAssign { id, indices, exp: Box::new(exp) };
        proof {
            assert(node.children@.len() == 2);
            assert(node.children@[0].rule is FnCall);
            assert(node.children@[0].children@.len() >= 1);
            assert(idx_args_ok(node.children@[0]));
            assert(exp_ok(node.children@[1]));
            assert(exp_ok(*node));
            assert(idx_args_walked(node.children@[0], result->IndexAssign_indices@, source_id));
            assert(walked_exp(*node, result, source_id));
        }
        Ok(result)
    } else if matches!(target.rule, Rule::Id) {
        let exp = match parse_exp(&node.children[1], source_id) {
            Ok(a) => a,
            Err(e) => {
                return Err(e);
            },
        };
        let result = AstNode::Assign { id: target.text.clone(), exp: Box::new(exp) };
        proof {
            assert(exp_ok(*node));
            assert(walked_exp(*node, result, source_id));
        }
        Ok(result)
    } else {
        Err(span_err("Unexpected expression", node.start))
    }
}

/// Walks a function literal: parameter names in declaration order, body
/// statements in order, and the verbatim source text kept.
fn walk_fn_literal(node: &SyntaxNode, source_id: usize) -> (r: Result<AstNode, SpanErr>)
    requires
        node.rule is Fn,
    ensures
        r is Ok <==> exp_ok(*node),
        r matches Ok(a) ==> walked_exp(*node, a, source_id),
        r matches Ok(a) ==> const_facts(*node, a),
    decreases *node, 1int,
{
    if node.children.len() < 1 || !matches!(node.children[0].rule, Rule::Params) {
        return Err(span_err("Unexpected expression", node.start));
    }
    let params = &node.children[0];
    let pn = params.children.len();
    let mut arg_names: Vec<String> = Vec::new();
    let mut k: usize = 0;
    while k < pn
        invariant
            k <= pn,
            pn == node.children@[0].children@.len(),
            params == &node.children@[0],
            node.children@.len() >= 1,
            node.children@[0].rule is Params,
            node.rule is Fn,
            arg_names@.len() == k,
            forall|j: int|
                0 <= j < k ==> #[trigger] arg_names@[j] == node.children@[0].children@[j].text,
        decreases pn - k,
    {
        arg_names.push(params.children[k].text.clone());
        k = k + 1;
    }
    let n2 = node.children.len();
    let mut stmts: Vec<AstNode> = Vec::new();
    let mut k2: usize = 1;
    while k2 < n2
        invariant
            1 <= k2 <= n2,
            n2 == node.children@.len(),
            node.rule is Fn,
            stmts@.len() == k2 - 1,
            forall|j: int|
                1 <= j < k2 ==> walked_exp(#[trigger] node.children@[j], stmts@[j - 1], source_id),
            forall|j: int| 1 <= j < k2 ==> exp_ok(#[trigger] node.children@[j]),
        decreases n2 - k2,
    {
        proof {
            lemma_child_smaller(*node, k2 as int);
        }
        match parse_exp(&node.children[k2], source_id) {
            Ok(a) => {
                stmts.push(a);
            },
            Err(e) => {
                return Err(e);
            },
        }
        k2 = k2 + 1;
    }
    Ok(
        AstNode::Fn {
            stmts,
            arg_names,
            fn_body: node.text.clone(),
            start: node.start,
            source_id,
        },
    )
}

/// Walks a call: the callee, then each argument, an omitted one standing as
/// a placeholder.
fn walk_call(node: &SyntaxNode, source_id: usize) -> (r: Result<AstNode, SpanErr>)
    requires
        node.rule is FnCall,
    ensures
        r is Ok <==> exp_ok(*node),
        r matches Ok(a) ==> walked_exp(*node, a, source_id),
        r matches Ok(a) ==> const_facts(*node, a),
    decreases *node, 1int,
{
    if node.children.len() < 1 {
        return Err(span_err("Unexpected expression", node.start));
    }
    proof {
        lemma_child_smaller(*node, 0);
    }
    let f = match parse_exp(&node.children[0], source_id) {
        Ok(a) => a,
        Err(e) => {
            return Err(e);
        },
    };
    let n2 = node.children.len();
    let mut args: Vec<AstNode> = Vec::new();
    let mut k: usize = 1;
    while k < n2
        invariant
            1 <= k <= n2,
            n2 == node.children@.len(),
            node.rule is FnCall,
            args@.len() == k - 1,
            forall|j: int|
                1 <= j < k ==> walked_arg(#[trigger] node.children@[j], args@[j - 1], source_id),
            forall|j: int| 1 <= j < k ==> arg_ok(#[trigger] node.children@[j]),
        decreases n2 - k,
    {
        proof {
            lemma_child_smaller(*node, k as int);
        }
        let arg = &node.children[k];
        if arg.children.len() != 1 {
            proof {
                assert(!arg_ok(node.children@[k as int]));
            }
            return Err(span_err("Unexpected expression", arg.start));
        }
        proof {
            lemma_child_smaller(node.children@[k as int], 0);
        }
        match parse_exp(&arg.children[0], source_id) {
            Ok(a) => {
                args.push(a);
            },
            Err(e) => {
                proof {
                    assert(!arg_ok(node.children@[k as int]));
                }
                return Err(e);
            },
        }
        k = k + 1;
    }
    Ok(AstNode::Call { f: Box::new(f), args, start: node.start, source_id })
}

/// Walks an `if` or `while`: the condition, then the body statements up to
/// and including the first `return`.
fn walk_cond(node: &SyntaxNode, source_id: usize) -> (r: Result<AstNode, SpanErr>)
    requires
        node.rule is IfExp || node.rule is WhileExp,
    ensures
        r is Ok <==> exp_ok(*node),
        r matches Ok(a) ==> walked_exp(*node, a, source_id),
        r matches Ok(a) ==> const_facts(*node, a),
    decreases *node, 1int,
{
    if node.children.len() != 2 {
        return Err(span_err("Unexpected expression", node.start));
    }
    proof {
        lemma_child_smaller(*node, 0);
        lemma_child_smaller(*node, 1);
    }
    let cond = match parse_exp(&node.children[0], source_id) {
        Ok(a) => a,
        Err(e) => {
            return Err(e);
        },
    };
    let body = &node.children[1];
    let bn = body.children.len();
    let mut stmts: Vec<AstNode> = Vec::new();
    let mut k: usize = 0;
    let mut returned = false;
    while k < bn && !returned
        invariant
            k <= bn,
            bn == node.children@[1].children@.len(),
            body == &node.children@[1],
            node.children@.len() == 2,
            node.rule is IfExp || node.rule is WhileExp,
            !returned ==> stmts@.len() == k,
            returned ==> stmts@.len() == k + 1 && k < bn && node.children@[1].children@[
                k as int].rule is ReturnExp,
            forall|j: int|
                0 <= j < stmts@.len() ==> walked_exp(
                    #[trigger] node.children@[1].children@[j],
                    stmts@[j],
                    source_id,
                ),
            forall|j: int|
                0 <= j < stmts@.len() ==> exp_ok(#[trigger] node.children@[1].children@[j]),
            forall|j: int|
                0 <= j < k ==> !((#[trigger] node.children@[1].children@[j]).rule is ReturnExp),
        decreases bn - k + (if returned {
            0int
        } else {
            1int
        }),
    {
        proof {
            lemma_child_smaller(*node, 1);
            lemma_child_smaller(node.children@[1], k as int);
        }
        let st = &body.children[k];
        let is_ret = matches!(st.rule, Rule::ReturnExp);
        match parse_exp(st, source_id) {
            Ok(a) => {
                stmts.push(a);
            },
            Err(e) => {
                proof {
                    lemma_cut_lb(node.children@[1].children@, k as int);
                    assert(!stmts_cut_ok(node.children@[1]));
                }
                return Err(e);
            },
        }
        if is_ret {
            returned = true;
        } else {
            k = k + 1;
        }
    }
    proof {
        let cs = node.children@[1].children@;
        if returned {
            assert(k < bn && cs[k as int].rule is ReturnExp);
            lemma_cut_at(cs, k as int);
            assert(first_return_cut(cs) == k + 1);
        } else {
            assert(k == bn);
            lemma_cut_at(cs, bn as int);
            assert(first_return_cut(cs) == bn as int);
        }
        assert(stmts_cut_walked(node.children@[1], stmts@, source_id));
        assert(stmts_cut_ok(node.children@[1]));
    }
    if matches!(node.rule, Rule::IfExp) {
        Ok(AstNode::If { cond: Box::new(cond), stmts })
    } else {
        Ok(AstNode::While { cond: Box::new(cond), stmts })
    }
}

/// Walks a `try`: the try statements, then the catch statements; the catch
/// parameter name is not kept in the tree.
fn walk_try(node: &SyntaxNode, source_id: usize) -> (r: Result<AstNode, SpanErr>)
    requires
        node.rule is TryExp,
    ensures
        r is Ok <==> exp_ok(*node),
        r matches Ok(a) ==> walked_exp(*node, a, source_id),
        r matches Ok(a) ==> const_facts(*node, a),
    decreases *node, 1int,
{
    if node.children.len() != 3 {
        return Err(span_err("Unexpected expression", node.start));
    }
    let mut tries: Vec<AstNode> = Vec::new();
    let mut catches: Vec<AstNode> = Vec::new();
    let tb = &node.children[0];
    let tn = tb.children.len();
    let mut k: usize = 0;
    while k < tn
        invariant
            k <= tn,
            tn == node.children@[0].children@.len(),
            tb == &node.children@[0],
            node.children@.len() == 3,
            node.rule is TryExp,
            tries@.len() == k,
            forall|j: int|
                0 <= j < k ==> walked_exp(
                    #[trigger] node.children@[0].children@[j],
                    tries@[j],
                    source_id,
                ),
            forall|j: int| 0 <= j < k ==> exp_ok(#[trigger] node.children@[0].children@[j]),
        decreases tn - k,
    {
        proof {
            lemma_child_smaller(*node, 0);
            lemma_child_smaller(node.children@[0], k as int);
        }
        match parse_exp(&tb.children[k], source_id) {
            Ok(a) => {
                tries.push(a);
            },
            Err(e) => {
                proof {
                    assert(!stmts_all_ok(node.children@[0]));
                }
                return Err(e);
            },
        }
        k = k + 1;
    }
    let cb = &node.children[2];
    let cn = cb.children.len();
    let mut k2: usize = 0;
    while k2 < cn
        invariant
            k2 <= cn,
            cn == node.children@[2].children@.len(),
            cb == &node.children@[2],
            node.children@.len() == 3,
            node.rule is TryExp,
            catches@.len() == k2,
            forall|j: int|
                0 <= j < k2 ==> walked_exp(
                    #[trigger] node.children@[2].children@[j],
                    catches@[j],
                    source_id,
                ),
            forall|j: int| 0 <= j < k2 ==> exp_ok(#[trigger] node.children@[2].children@[j]),
        decreases cn - k2,
    {
        proof {
            lemma_child_smaller(*node, 2);
            lemma_child_smaller(node.children@[2], k2 as int);
        }
        match parse_exp(&cb.children[k2], source_id) {
            Ok(a) => {
                catches.push(a);
            },
            Err(e) => {
                proof {
                    assert(!stmts_all_ok(node.children@[2]));
                }
                return Err(e);
            },
        }
        k2 = k2 + 1;
    }
    let result = AstNode::Try { tries, catches };
    proof {
        assert(node.children@.len() == 3);
        assert(tries@.len() == node.children@[0].children@.len());
        assert(stmts_all_walked(node.children@[0], result->Try_tries@, source_id));
        assert(stmts_all_walked(node.children@[2], result->Try_catches@, source_id));
        assert(stmts_all_ok(node.children@[0]));
        assert(stmts_all_ok(node.children@[2]));
        assert(exp_ok(*node));
        assert(walked_exp(*node, result, source_id));
    }
    Ok(result)
}

/// Walks a list literal element by element.
fn walk_list_literal(node: &SyntaxNode, source_id: usize) -> (r: Result<AstNode, SpanErr>)
    requires
        node.rule is List,
    ensures
        r is Ok <==> exp_ok(*node),
        r matches Ok(a) ==> walked_exp(*node, a, source_id),
        r matches Ok(a) ==> const_facts(*node, a),
    decreases *node, 1int,
{
    let n2 = node.children.len();
    let mut items: Vec<AstNode> = Vec::new();
    let mut k: usize = 0;
    while k < n2
        invariant
            k <= n2,
            n2 == node.children@.len(),
            node.rule is List,
            items@.len() == k,
            forall|j: int|
                0 <= j < k ==> list_item_walked(#[trigger] node.children@[j], items@[j], source_id),
            forall|j: int| 0 <= j < k ==> list_item_ok(#[trigger] node.children@[j]),
        decreases n2 - k,
    {
        proof {
            lemma_child_smaller(*node, k as int);
        }
        match parse_list(&node.children[k], source_id) {
            Ok(a) => {
                items.push(a);
            },
            Err(e) => {
                return Err(e);
            },
        }
        k = k + 1;
    }
    Ok(AstNode::List(items))
}

/// Walks a dict literal: keys in declaration order with their walked value
/// expressions.
fn walk_dict_literal(node: &SyntaxNode, source_id: usize) -> (r: Result<AstNode, SpanErr>)
    requires
        node.rule is Dict,
    ensures
        r is Ok <==> exp_ok(*node),
        r matches Ok(a) ==> walked_exp(*node, a, source_id),
        r matches Ok(a) ==> const_facts(*node, a),
    decreases *node, 1int,
{
    let n2 = node.children.len();
    let mut keys: Vec<String> = Vec::new();
    let mut values: Vec<AstNode> = Vec::new();
    let mut k: usize = 0;
    while k < n2
        invariant
            k <= n2,
            n2 == node.children@.len(),
            node.rule is Dict,
            keys@.len() == k,
            values@.len() == k,
            forall|j: int|
                0 <= j < k ==> kv_walked(
                    #[trigger] node.children@[j],
                    keys@[j],
                    values@[j],
                    source_id,
                ),
            forall|j: int| 0 <= j < k ==> kv_ok(#[trigger] node.children@[j]),
        decreases n2 - k,
    {
        proof {
            lemma_child_smaller(*node, k as int);
        }
        let kv = &node.children[k];
        if kv.children.len() != 2 {
            proof {
                assert(!kv_ok(node.children@[k as int]));
            }
            return Err(span_err("Unexpected expression", kv.start));
        }
        proof {
            lemma_child_smaller(node.children@[k as int], 1);
        }
        keys.push(kv.children[0].text.clone());
        match parse_exp(&kv.children[1], source_id) {
            Ok(a) => {
                values.push(a);
            },
            Err(e) => {
                proof {
                    assert(!kv_ok(node.children@[k as int]));
                }
                return Err(e);
            },
        }
        k = k + 1;
    }
    Ok(AstNode::Dict { keys, values })
}

/// Walks a dataframe literal node: walks each column, then folds or defers.
#[verifier::rlimit(100)]
#[verifier::spinoff_prover]
fn walk_dataframe(node: &SyntaxNode, source_id: usize) -> (r: Result<AstNode, SpanErr>)
    requires
        node.rule is Dataframe,
    ensures
        r is Ok <==> exp_ok(*node),
        r matches Ok(a) ==> walked_exp(*node, a, source_id),
        r matches Ok(a) ==> const_facts(*node, a),
        (forall|i: int| 0 <= i < node.children@.len() ==> df_col_ok(#[trigger] node.children@[i]))
            && df_conv_ok(*node) && df_all_const_syn(*node) && !df_shape_ok(*node) ==> (
        r matches Err(e) && e.pos == node.start),
    decreases *node, 1int,
{
    let n2 = node.children.len();
    let mut cols: Vec<DfCol> = Vec::new();
    let mut k: usize = 0;
    while k < n2
        invariant
            node.rule is Dataframe,
            k <= n2,
            n2 == node.children@.len(),
            cols@.len() == k,
            forall|j: int|
                0 <= j < k ==> df_col_walked(#[trigger] node.children@[j], cols@[j], source_id),
            forall|j: int| 0 <= j < k ==> df_col_ok(#[trigger] node.children@[j]),
            forall|j: int|
                0 <= j < k ==> const_facts(
                    df_exp_node(#[trigger] node.children@[j]),
                    cols@[j].exp,
                ),
        decreases n2 - k,
    {
        proof {
            lemma_child_smaller(*node, k as int);
        }
        let colnode = &node.children[k];
        if colnode.children.len() != 1 {
            proof {
                assert(!df_col_ok(node.children@[k as int]));
            }
            return Err(span_err("Unexpected expression", colnode.start));
        }
        proof {
            lemma_child_smaller(node.children@[k as int], 0);
        }
        let inner = &colnode.children[0];
        if matches!(inner.rule, Rule::RenameSeriesExp) {
            if inner.children.len() != 2 {
                proof {
                    assert(!df_inner_ok(node.children@[k as int].children@[0]));
                    assert(!df_col_ok(node.children@[k as int]));
                }
                return Err(span_err("Unexpected expression", inner.start));
            }
            proof {
                lemma_child_smaller(node.children@[k as int].children@[0], 1);
            }
            let exp = match parse_exp(&inner.children[1], source_id) {
                Ok(a) => a,
                Err(e) => {
                    proof {
                        assert(!df_inner_ok(node.children@[k as int].children@[0]));
                        assert(!df_col_ok(node.children@[k as int]));
                    }
                    return Err(e);
                },
            };
            proof {
                assert(df_exp_node(node.children@[k as int])
                    == node.children@[k as int].children@[0].children@[1]);
            }
            cols.push(
                DfCol {
                    name: Some(inner.children[0].text.clone()),
                    exp,
                    start: colnode.start,
                },
            );
        } else {
            let exp = match parse_exp(inner, source_id) {
                Ok(a) => a,
                Err(e) => {
                    proof {
                        assert(!df_inner_ok(node.children@[k as int].children@[0]));
                        assert(!df_col_ok(node.children@[k as int]));
                    }
                    return Err(e);
                },
            };
            proof {
                assert(df_exp_node(node.children@[k as int]) == node.children@[k as int].children@[0]);
            }
            cols.push(DfCol { name: None, exp, start: colnode.start });
        }
        k = k + 1;
    }
    let ghost gcols = cols@;
    let ghost cs = node.children@;
    proof {
        // the walked columns' constancy attributes are the syntactic ones
        assert(forall|i: int|
            0 <= i < cs.len() ==> (df_col_const(#[trigger] gcols[i]) <==> is_const_node(
                df_exp_node(cs[i]))));
        assert(forall|i: int|
            0 <= i < cs.len() ==> df_col_name(#[trigger] gcols[i], i) == df_syn_name(cs[i], i))
            by {
            assert forall|i: int| 0 <= i < cs.len() implies df_col_name(
                #[trigger] gcols[i],
                i,
            ) == df_syn_name(cs[i], i) by {
                lemma_df_name_link(cs[i], gcols[i], i, source_id);
            }
        }
        // lengths agree for columns a series can be made of
        assert(forall|i: int|
            0 <= i < cs.len() && df_col_const(#[trigger] gcols[i]) && df_col_seriesable(gcols[i])
                ==> df_col_len(gcols[i]) == const_len(df_exp_node(cs[i]))) by {
            assert forall|i: int|
                0 <= i < cs.len() && df_col_const(#[trigger] gcols[i]) && df_col_seriesable(
                    gcols[i],
                ) implies df_col_len(gcols[i]) == const_len(df_exp_node(cs[i])) by {
                assert(const_facts(df_exp_node(cs[i]), gcols[i].exp));
            }
        }
    }
    match build_dataframe(cols, node.start) {
        Ok(a) => {
            proof {
                assert(df_all_seriesable(gcols));
                // success conditions, syntactically
                assert(df_conv_ok(*node)) by {
                    assert forall|i: int|
                        0 <= i < cs.len() && is_const_node(
                            df_exp_node(#[trigger] cs[i]),
                        ) implies const_seriesable(df_exp_node(cs[i])) by {
                        assert(df_col_const(gcols[i]));
                        assert(df_col_seriesable(gcols[i]));
                        assert(const_facts(df_exp_node(cs[i]), gcols[i].exp));
                    }
                }
                assert(df_all_const_syn(*node) <==> df_all_const(gcols));
                if df_all_const(gcols) {
                    assert(df_names_unique(gcols) && df_lens_equal(gcols));
                    assert(df_shape_ok(*node)) by {
                        assert(forall|i: int, j: int|
                            0 <= i < j < cs.len() ==> df_syn_name(#[trigger] cs[i], i)
                                != df_syn_name(#[trigger] cs[j], j));
                        assert(forall|i: int|
                            0 <= i < cs.len() ==> const_len(df_exp_node(#[trigger] cs[i]))
                                == const_len(df_exp_node(cs[0])));
                    }
                }
                assert(exp_ok(*node));
                assert(df_cols_walked(*node, gcols, source_id));
                assert(df_result(gcols, a));
                lemma_walked_df_intro(*node, gcols, a, source_id);
                // the fold result is a constant exactly when every column is
                assert(const_facts(*node, a)) by {
                    if df_all_const(gcols) {
                        assert(a matches AstNode::J(j) && j is DataFrame);
                        assert(is_const_node(*node)) by {
                            assert forall|i: int|
                                0 <= i < cs.len() implies df_col_node_const(
                                #[trigger] cs[i],
                            ) by {
                                assert(df_col_const(gcols[i]));
                                assert(const_facts(df_exp_node(cs[i]), gcols[i].exp));
                            }
                        }
                    } else {
                        assert(a is Dataframe);
                        assert(!is_const_node(*node)) by {
                            let w = choose|i: int|
                                0 <= i < gcols.len() && !df_col_const(#[trigger] gcols[i]);
                            assert(!is_const_node(df_exp_node(cs[w])));
                            assert(!df_col_node_const(cs[w]));
                        }
                    }
                }
            }
            Ok(a)
        },
        Err(e) => {
            proof {
                assert(!(df_all_seriesable(gcols) && (df_all_const(gcols) ==> (df_names_unique(
                    gcols,
                ) && df_lens_equal(gcols)))));
                if !df_all_seriesable(gcols) {
                    let w = choose|i: int|
                        0 <= i < gcols.len() && df_col_const(#[trigger] gcols[i])
                            && !df_col_seriesable(gcols[i]);
                    assert(const_facts(df_exp_node(cs[w]), gcols[w].exp));
                    assert(is_const_node(df_exp_node(cs[w])) && !const_seriesable(
                        df_exp_node(cs[w]),
                    ));
                    assert(!df_conv_ok(*node));
                    assert(!exp_ok(*node));
                } else {
                    assert(df_all_const(gcols) && !(df_names_unique(gcols) && df_lens_equal(
                        gcols,
                    )));
                    assert(df_all_const_syn(*node));
                    if !df_names_unique(gcols) {
                        let (wi, wj) = choose|wi: int, wj: int|
                            0 <= wi < wj < gcols.len() && df_col_name(#[trigger] gcols[wi], wi)
                                == df_col_name(#[trigger] gcols[wj], wj);
                        assert(df_syn_name(cs[wi], wi) == df_syn_name(cs[wj], wj));
                        assert(!df_shape_ok(*node));
                    } else {
                        let w = choose|i: int|
                            0 <= i < gcols.len() && df_col_len(#[trigger] gcols[i]) != df_col_len(
                                gcols[0],
                            );
                        assert(df_col_seriesable(gcols[w]) && df_col_seriesable(gcols[0]));
                        assert(const_len(df_exp_node(cs[w])) != const_len(df_exp_node(cs[0])));
                        assert(!df_shape_ok(*node));
                    }
                    assert(!exp_ok(*node));
                }
            }
            Err(e)
        },
    }
}

/// Walks a matrix literal node: walks each column, refuses a constant column
/// of a non-numeric, non-boolean type at that column's offset naming its
/// type, then folds or defers.
#[verifier::rlimit(100)]
#[verifier::spinoff_prover]
fn walk_matrix(node: &SyntaxNode, source_id: usize) -> (r: Result<AstNode, SpanErr>)
    requires
        node.rule is Matrix,
    ensures
        r is Ok <==> exp_ok(*node),
        r matches Ok(a) ==> walked_exp(*node, a, source_id),
        r matches Ok(a) ==> const_facts(*node, a),
        (forall|i: int|
            0 <= i < node.children@.len() ==> mat_col_node_ok(#[trigger] node.children@[i]))
            && !mat_types_ok(*node) ==> (r matches Err(e) && mat_syn_err_at(*node, e)),
    decreases *node, 1int,
{
    let n2 = node.children.len();
    let mut cols: Vec<DfCol> = Vec::new();
    let mut k: usize = 0;
    while k < n2
        invariant
            node.rule is Matrix,
            k <= n2,
            n2 == node.children@.len(),
            cols@.len() == k,
            forall|j: int|
                0 <= j < k ==> mat_col_walked(#[trigger] node.children@[j], cols@[j], source_id),
            forall|j: int| 0 <= j < k ==> mat_col_node_ok(#[trigger] node.children@[j]),
            forall|j: int|
                0 <= j < k ==> const_facts(
                    mat_exp_node(#[trigger] node.children@[j]),
                    cols@[j].exp,
                ),
        decreases n2 - k,
    {
        proof {
            lemma_child_smaller(*node, k as int);
        }
        let colnode = &node.children[k];
        if colnode.children.len() != 1 {
            proof {
                assert(!mat_col_node_ok(node.children@[k as int]));
            }
            return Err(span_err("Unexpected expression", colnode.start));
        }
        proof {
            lemma_child_smaller(node.children@[k as int], 0);
        }
        let exp = match parse_exp(&colnode.children[0], source_id) {
            Ok(a) => a,
            Err(e) => {
                proof {
                    assert(!mat_col_node_ok(node.children@[k as int]));
                }
                return Err(e);
            },
        };
        proof {
            assert(mat_exp_node(node.children@[k as int]) == node.children@[k as int].children@[0]);
        }
        cols.push(DfCol { name: None, exp, start: colnode.start });
        k = k + 1;
    }
    let ghost gcols = cols@;
    let ghost cs = node.children@;
    proof {
        assert(forall|i: int|
            0 <= i < cs.len() ==> (df_col_const(#[trigger] gcols[i]) <==> is_const_node(
                mat_exp_node(cs[i]))));
        assert(forall|i: int|
            0 <= i < cs.len() ==> (mat_col_ok(#[trigger] gcols[i]) <==> (is_const_node(
                mat_exp_node(cs[i]),
            ) ==> const_num_or_bool(mat_exp_node(cs[i]))))) by {
            assert forall|i: int| 0 <= i < cs.len() implies (mat_col_ok(#[trigger] gcols[i]) <==> (
            is_const_node(mat_exp_node(cs[i])) ==> const_num_or_bool(mat_exp_node(cs[i])))) by {
                assert(cs[i] == node.children@[i]);
                assert(const_facts(mat_exp_node(node.children@[i]), gcols[i].exp));
                lemma_col_links(mat_exp_node(cs[i]), gcols[i]);
            }
        }
        assert(forall|i: int|
            0 <= i < cs.len() && df_col_const(#[trigger] gcols[i]) ==> (mat_col_no_null(gcols[i])
                <==> const_no_null(mat_exp_node(cs[i])))) by {
            assert forall|i: int|
                0 <= i < cs.len() && df_col_const(#[trigger] gcols[i]) implies (mat_col_no_null(
                gcols[i],
            ) <==> const_no_null(mat_exp_node(cs[i]))) by {
                assert(cs[i] == node.children@[i]);
                assert(const_facts(mat_exp_node(node.children@[i]), gcols[i].exp));
                lemma_col_links(mat_exp_node(cs[i]), gcols[i]);
            }
        }
        assert(forall|i: int|
            0 <= i < cs.len() && df_col_const(#[trigger] gcols[i]) && j_seriesable_of(gcols[i])
                ==> df_col_len(gcols[i]) == const_len(mat_exp_node(cs[i]))) by {
            assert forall|i: int|
                0 <= i < cs.len() && df_col_const(#[trigger] gcols[i]) && j_seriesable_of(
                    gcols[i],
                ) implies df_col_len(gcols[i]) == const_len(mat_exp_node(cs[i])) by {
                assert(const_facts(mat_exp_node(cs[i]), gcols[i].exp));
            }
        }
    }
    match build_matrix(cols, node.start) {
        Ok(a) => {
            proof {
                assert(mat_all_ok(gcols));
                assert(mat_types_ok(*node));
                assert(mat_all_const_syn(*node) <==> df_all_const(gcols));
                if df_all_const(gcols) {
                    assert(mat_no_null(gcols) && df_lens_equal(gcols));
                    assert(mat_shape_ok(*node)) by {
                        assert forall|i: int| 0 <= i < cs.len() implies const_len(
                            mat_exp_node(#[trigger] cs[i]),
                        ) == const_len(mat_exp_node(cs[0])) by {
                            assert(mat_col_ok(gcols[i]) && df_col_const(gcols[i]));
                            assert(j_seriesable_of(gcols[i]));
                            assert(j_seriesable_of(gcols[0]));
                        }
                    }
                }
                assert(exp_ok(*node));
                assert(mat_cols_walked(*node, gcols, source_id));
                assert(mat_result(gcols, a));
                lemma_walked_mat_intro(*node, gcols, a, source_id);
                assert(const_facts(*node, a)) by {
                    if df_all_const(gcols) {
                        assert(a matches AstNode::J(j) && j is Matrix);
                        assert(is_const_node(*node)) by {
                            assert forall|i: int|
                                0 <= i < cs.len() implies mat_col_node_const(
                                #[trigger] cs[i],
                            ) by {
                                assert(df_col_const(gcols[i]));
                            }
                        }
                    } else {
                        assert(a is Matrix);
                        assert(!is_const_node(*node)) by {
                            let w = choose|i: int|
                                0 <= i < gcols.len() && !df_col_const(#[trigger] gcols[i]);
                            assert(!mat_col_node_const(cs[w]));
                        }
                    }
                }
            }
            Ok(a)
        },
        Err(e) => {
            proof {
                if !mat_all_ok(gcols) {
                    assert(mat_err_at(gcols, e));
                    let w = choose|i: int|
                        #![trigger gcols[i]]
                        0 <= i < gcols.len() && !mat_col_ok(gcols[i]) && e.pos == gcols[i].start
                            && e.msg@ == "Requires numeric data type, got '"@ + mat_type_name(
                            gcols[i],
                        ) + "'"@ && (forall|j: int| 0 <= j < i ==> mat_col_ok(#[trigger] gcols[j]));
                    assert(const_facts(mat_exp_node(cs[w]), gcols[w].exp));
                    assert(is_const_node(mat_exp_node(cs[w])) && !const_num_or_bool(
                        mat_exp_node(cs[w]),
                    ));
                    assert(mat_type_name(gcols[w]) == const_type_name(mat_exp_node(cs[w])));
                    assert(e.pos == cs[w].start);
                    assert(mat_syn_err_at(*node, e)) by {
                        assert(forall|j: int|
                            0 <= j < w ==> !(is_const_node(mat_exp_node(#[trigger] cs[j]))
                                && !const_num_or_bool(mat_exp_node(cs[j]))));
                    }
                    assert(!mat_types_ok(*node));
                    assert(!exp_ok(*node));
                } else {
                    assert(df_all_const(gcols) && !(mat_no_null(gcols) && df_lens_equal(gcols)));
                    assert(mat_all_const_syn(*node));
                    assert(mat_types_ok(*node)) by {
                        assert forall|i: int|
                            0 <= i < cs.len() && is_const_node(
                                mat_exp_node(#[trigger] cs[i]),
                            ) implies const_num_or_bool(mat_exp_node(cs[i])) by {
                            assert(mat_col_ok(gcols[i]));
                        }
                    }
                    if !mat_no_null(gcols) {
                        let w = choose|i: int|
                            0 <= i < gcols.len() && !mat_col_no_null(#[trigger] gcols[i]);
                        assert(!const_no_null(mat_exp_node(cs[w])));
                        assert(!mat_shape_ok(*node));
                    } else {
                        let w = choose|i: int|
                            0 <= i < gcols.len() && df_col_len(#[trigger] gcols[i]) != df_col_len(
                                gcols[0],
                            );
                        assert(j_seriesable_of(gcols[w]) && j_seriesable_of(gcols[0]));
                        assert(const_len(mat_exp_node(cs[w])) != const_len(mat_exp_node(cs[0])));
                        assert(!mat_shape_ok(*node));
                    }
                    assert(!exp_ok(*node));
                }
            }
            Err(e)
        },
    }
}

/// A column value a series can be made of.
pub open spec fn j_seriesable_of(c: DfCol) -> bool {
    c.exp matches AstNode::J(j) && j_seriesable(j)
}

/// The walked program: one AST node per top-level expression node, in
/// source order; nodes of other rules are passed over.
pub open spec fn program_walked(ns: Seq<SyntaxNode>, out: Seq<AstNode>, sid: usize) -> bool
    decreases ns,
{
    if ns.len() == 0 {
        out.len() == 0
    } else if ns.last().rule is Exp {
        out.len() >= 1 && program_walked(ns.drop_last(), out.drop_last(), sid) && walked_exp(
            ns.last(),
            out.last(),
            sid,
        )
    } else {
        program_walked(ns.drop_last(), out, sid)
    }
}

/// Trigger marker for the program witness.
pub open spec fn program_witness(ns: Seq<SyntaxNode>) -> bool {
    true
}

pub open spec fn program_ok(ns: Seq<SyntaxNode>) -> bool {
    forall|k: int| 0 <= k < ns.len() && (#[trigger] ns[k]).rule is Exp ==> exp_ok(ns[k])
}

/// Walks every top-level expression node in order; the first failure aborts
/// the walk and no partial sequence is returned.
pub fn walk_program(nodes: &Vec<SyntaxNode>, source_id: usize) -> (r: Result<Vec<AstNode>, SpanErr>)
    ensures
        r is Ok <==> program_ok(nodes@),
        r matches Ok(v) ==> program_walked(nodes@, v@, source_id),
{
    let n = nodes.len();
    let mut ast: Vec<AstNode> = Vec::new();
    let mut i: usize = 0;
    proof {
        assert(nodes@.take(0) =~= Seq::<SyntaxNode>::empty());
    }
    while i < n
        invariant
            i <= n,
            n == nodes@.len(),
            program_walked(nodes@.take(i as int), ast@, source_id),
            forall|k: int|
                0 <= k < i && (#[trigger] nodes@[k]).rule is Exp ==> exp_ok(nodes@[k]),
        decreases n - i,
    {
        proof {
            assert(nodes@.take(i + 1).drop_last() =~= nodes@.take(i as int));
            assert(nodes@.take(i + 1).last() == nodes@[i as int]);
        }
        if matches!(nodes[i].rule, Rule::Exp) {
            let ghost prev = ast@;
            match parse_exp(&nodes[i], source_id) {
                Ok(a) => {
                    ast.push(a);
                    proof {
                        assert(ast@.drop_last() =~= prev);
                    }
                },
                Err(e) => {
                    return Err(e);
                },
            }
        }
        i = i + 1;
    }
    proof {
        assert(nodes@.take(n as int) =~= nodes@);
    }
    Ok(ast)
}

/// Parses a whole source unit: the external grammar produces the top-level
/// expression nodes, and `walk_program` turns them into AST nodes under its
/// full contract. The grammar itself is a given external contract, so
/// success cannot be promised here; what is promised is that any result is
/// the faithful walk of a sequence of accepted top-level expression nodes,
/// and that the first error aborts the parse with no partial tree.
pub fn parse(source: &str, source_id: usize) -> (r: Result<Vec<AstNode>, SpanErr>)
    ensures
        r matches Ok(v) ==> exists|nodes: Seq<SyntaxNode>|
            (#[trigger] program_witness(nodes)) && program_ok(nodes) && program_walked(
                nodes,
                v@,
                source_id,
            ),
{
    parse_with_depth(source, source_id, crate::grammar::MAX_NESTING_DEPTH)
}

/// `parse` with a caller-supplied bound on expression nesting.
pub fn parse_with_depth(source: &str, source_id: usize, max_depth: usize) -> (r: Result<
    Vec<AstNode>,
    SpanErr,
>)
    ensures
        r matches Ok(v) ==> exists|nodes: Seq<SyntaxNode>|
            (#[trigger] program_witness(nodes)) && program_ok(nodes) && program_walked(
                nodes,
                v@,
                source_id,
            ),
{
    let nodes = match crate::grammar::JParser::parse_with_depth(source, max_depth) {
        Ok(x) => x,
        Err(e) => {
            return Err(e);
        },
    };
    let r = walk_program(&nodes, source_id);
    proof {
        assert(program_witness(nodes@));
    }
    r
}

// ===== The walk relation and the walk success predicate =====
//
// `exp_ok(n)` says the walker accepts the syntax node; `walked_exp(n, a,
// sid)` says `a` is the AST node the walk produces. Together with
// `const_facts` below they characterize every walk result.

/// Whether a binary-operator node walks.
pub open spec fn binop_ok(n: SyntaxNode) -> bool {
    n.rule is BinaryOp || (n.rule is BinaryId && n.text@.len() >= 1)
}

/// The operator node a binary-operator node walks to.
pub open spec fn binop_walked(n: SyntaxNode, a: AstNode, sid: usize) -> bool {
    match n.rule {
        Rule::BinaryOp => a == AstNode::Op { name: n.text, start: n.start, source_id: sid },
        Rule::BinaryId => a matches AstNode::Op { name, start, source_id } && name@
            == n.text@.subrange(1, n.text@.len() as int) && start == n.start && source_id == sid,
        _ => false,
    }
}

/// Whether a walked node resolves to a constant literal value.
pub open spec fn is_const_node(n: SyntaxNode) -> bool
    decreases n, 1int,
{
    match n.rule {
        Rule::Exp | Rule::BracketExp => n.children@.len() >= 1 && is_const_node(n.children@[0]),
        Rule::Integer | Rule::Decimal | Rule::Boolean | Rule::Date | Rule::Time | Rule::Datetime
            | Rule::Timestamp | Rule::Duration | Rule::Enum | Rule::Str | Rule::NoneLit
            | Rule::Series => true,
        Rule::Dataframe => forall|i: int|
            0 <= i < n.children@.len() ==> df_col_node_const(#[trigger] n.children@[i]),
        Rule::Matrix => forall|i: int|
            0 <= i < n.children@.len() ==> mat_col_node_const(#[trigger] n.children@[i]),
        _ => false,
    }
}

pub open spec fn df_col_node_const(ch: SyntaxNode) -> bool
    decreases ch, 2int,
{
    ch.children@.len() == 1 && df_inner_const(ch.children@[0])
}

pub open spec fn df_inner_const(inner: SyntaxNode) -> bool
    decreases inner, 2int,
{
    if inner.rule is RenameSeriesExp {
        inner.children@.len() == 2 && is_const_node(inner.children@[1])
    } else {
        is_const_node(inner)
    }
}

pub open spec fn mat_col_node_const(ch: SyntaxNode) -> bool
    decreases ch, 2int,
{
    ch.children@.len() == 1 && is_const_node(ch.children@[0])
}

/// Whether a constant node's value can stand as a series: a scalar or a
/// series literal; folded tabular values cannot.
pub open spec fn const_seriesable(n: SyntaxNode) -> bool
    decreases n,
{
    match n.rule {
        Rule::Exp | Rule::BracketExp => n.children@.len() >= 1 && const_seriesable(n.children@[0]),
        Rule::Integer | Rule::Decimal | Rule::Boolean | Rule::Date | Rule::Time | Rule::Datetime
            | Rule::Timestamp | Rule::Duration | Rule::Enum | Rule::Str | Rule::NoneLit
            | Rule::Series => true,
        _ => false,
    }
}

/// Slot count of a constant column node.
pub open spec fn const_len(n: SyntaxNode) -> int
    decreases n,
{
    match n.rule {
        Rule::Exp | Rule::BracketExp => if n.children@.len() >= 1 {
            const_len(n.children@[0])
        } else {
            0
        },
        Rule::Series => n.children@.len() as int,
        Rule::Integer | Rule::Decimal | Rule::Boolean | Rule::Date | Rule::Time | Rule::Datetime
            | Rule::Timestamp | Rule::Duration | Rule::Enum | Rule::Str | Rule::NoneLit => 1,
        _ => 0,
    }
}

/// Whether a constant node's value is numeric or boolean, as a matrix
/// accepts it.
pub open spec fn const_num_or_bool(n: SyntaxNode) -> bool
    decreases n,
{
    match n.rule {
        Rule::Exp | Rule::BracketExp => n.children@.len() >= 1 && const_num_or_bool(
            n.children@[0],
        ),
        Rule::Integer | Rule::Decimal | Rule::Boolean => true,
        Rule::Series => {
            let k = crate::series::series_kind_of(elems_of(n.children@));
            kind_is_numeric(k) || k is Bool
        },
        _ => false,
    }
}

/// Whether a constant node's value has no absent slot.
pub open spec fn const_no_null(n: SyntaxNode) -> bool
    decreases n,
{
    match n.rule {
        Rule::Exp | Rule::BracketExp => n.children@.len() >= 1 ==> const_no_null(n.children@[0]),
        Rule::Series => {
            let elems = elems_of(n.children@);
            let k = crate::series::series_kind_of(elems);
            forall|i: int|
                0 <= i < elems.len() ==> !crate::series::elem_slot_absent(
                    k,
                    (#[trigger] elems[i]).text@,
                )
        },
        _ => true,
    }
}

/// The resolved type name of a constant node, as diagnostics print it.
pub open spec fn const_type_name(n: SyntaxNode) -> Seq<char>
    decreases n,
{
    match n.rule {
        Rule::Exp | Rule::BracketExp => if n.children@.len() >= 1 {
            const_type_name(n.children@[0])
        } else {
            Seq::empty()
        },
        Rule::Boolean => "bool"@,
        Rule::Integer => "i64"@,
        Rule::Decimal => "f64"@,
        Rule::Date => "date"@,
        Rule::Time => "time"@,
        Rule::Datetime => "datetime"@,
        Rule::Timestamp => "timestamp"@,
        Rule::Duration => "duration"@,
        Rule::Enum => "sym"@,
        Rule::Str => "str"@,
        Rule::NoneLit => "none"@,
        Rule::Series => kind_name(crate::series::series_kind_of(elems_of(n.children@))),
        Rule::Dataframe => "df"@,
        Rule::Matrix => "matrix"@,
        _ => Seq::empty(),
    }
}

/// Value-side counterparts of the syntactic predicates.
pub open spec fn j_seriesable(j: J) -> bool {
    j is Series || scalar_to_series_ok(j)
}

pub open spec fn j_col_len(j: J) -> int {
    match j {
        J::Series(s) => series_spec_len(s.data) as int,
        _ => if scalar_to_series_ok(j) {
            1
        } else {
            0
        },
    }
}

pub open spec fn j_num_or_bool(j: J) -> bool {
    match j {
        J::Series(s) => kind_is_numeric(series_spec_kind(s.data)) || series_spec_kind(s.data)
            is Bool,
        J::I64(_) | J::F64(_) | J::Boolean(_) => true,
        _ => false,
    }
}

pub open spec fn j_no_null(j: J) -> bool {
    match j {
        J::Series(s) => data_no_null(s.data),
        _ => true,
    }
}

pub open spec fn j_mat_type_name(j: J) -> Seq<char> {
    match j {
        J::Series(s) => kind_name(series_spec_kind(s.data)),
        _ => spec_type_name(j),
    }
}

/// A walk result is a constant value exactly when the syntax says so, and
/// the value's column attributes equal the syntactic ones.
pub open spec fn const_facts(n: SyntaxNode, a: AstNode) -> bool {
    &&& ((a is J) <==> is_const_node(n))
    &&& (a matches AstNode::J(j) ==> j_seriesable(j) == const_seriesable(n) && j_col_len(j)
        == const_len(n) && j_num_or_bool(j) == const_num_or_bool(n) && j_no_null(j)
        == const_no_null(n) && j_mat_type_name(j) == const_type_name(n))
}

/// Statements of an `if`/`while` body end at the first `return`.
pub open spec fn first_return_cut(cs: Seq<SyntaxNode>) -> int
    decreases cs.len(),
{
    if cs.len() == 0 {
        0
    } else if cs[0].rule is ReturnExp {
        1
    } else {
        1 + first_return_cut(cs.drop_first())
    }
}

pub proof fn lemma_cut_bounds(cs: Seq<SyntaxNode>)
    ensures
        0 <= first_return_cut(cs) <= cs.len(),
    decreases cs.len(),
{
    if cs.len() > 0 && !(cs[0].rule is ReturnExp) {
        lemma_cut_bounds(cs.drop_first());
    }
}

/// The cut sits right after the first `return` statement.
pub proof fn lemma_cut_at(cs: Seq<SyntaxNode>, k: int)
    requires
        0 <= k <= cs.len(),
        forall|j: int| 0 <= j < k ==> !((#[trigger] cs[j]).rule is ReturnExp),
        k < cs.len() ==> cs[k as int].rule is ReturnExp,
    ensures
        first_return_cut(cs) == if k < cs.len() {
            k + 1
        } else {
            cs.len() as int
        },
    decreases k,
{
    if k == 0 {
        if cs.len() > 0 {
        }
        lemma_cut_bounds(cs);
    } else {
        let tail = cs.drop_first();
        assert(forall|j: int| 0 <= j < k - 1 ==> #[trigger] tail[j] == cs[j + 1]);
        lemma_cut_at(tail, k - 1);
    }
}

/// One argument of a call: an argument node wrapping one expression.
pub open spec fn arg_ok(argn: SyntaxNode) -> bool
    decreases argn, 2int,
{
    argn.children@.len() == 1 && exp_ok(argn.children@[0])
}

pub open spec fn walked_arg(argn: SyntaxNode, a: AstNode, sid: usize) -> bool
    decreases argn, 2int,
{
    argn.children@.len() == 1 && walked_exp(argn.children@[0], a, sid)
}

/// The indices of a call-like assignment target.
pub open spec fn idx_args_ok(t: SyntaxNode) -> bool
    decreases t, 0int,
{
    forall|k: int| 1 <= k < t.children@.len() ==> arg_ok(#[trigger] t.children@[k])
}

pub open spec fn idx_args_walked(t: SyntaxNode, indices: Seq<AstNode>, sid: usize) -> bool
    decreases t, 0int,
{
    indices.len() + 1 == t.children@.len() && (forall|k: int|
        0 <= k < indices.len() ==> walked_arg(#[trigger] t.children@[k + 1], indices[k], sid))
}

/// The parameter names of a function literal, in declaration order.
pub open spec fn params_walked(p: SyntaxNode, names: Seq<String>) -> bool {
    names.len() == p.children@.len() && (forall|k: int|
        0 <= k < names.len() ==> #[trigger] names[k] == p.children@[k].text)
}

/// The walked statements of an `if`/`while` body: up to and including the
/// first `return`.
pub open spec fn stmts_cut_ok(b: SyntaxNode) -> bool
    decreases b, 2int,
{
    forall|k: int|
        0 <= k < first_return_cut(b.children@) && k < b.children@.len() ==> exp_ok(
            #[trigger] b.children@[k],
        )
}

pub open spec fn stmts_cut_walked(b: SyntaxNode, out: Seq<AstNode>, sid: usize) -> bool
    decreases b, 2int,
{
    out.len() == first_return_cut(b.children@) && (forall|k: int|
        0 <= k < out.len() && k < b.children@.len() ==> walked_exp(
            #[trigger] b.children@[k],
            out[k],
            sid,
        ))
}

/// Every statement of a block, walked in order.
pub open spec fn stmts_all_ok(b: SyntaxNode) -> bool
    decreases b, 2int,
{
    forall|k: int| 0 <= k < b.children@.len() ==> exp_ok(#[trigger] b.children@[k])
}

pub open spec fn stmts_all_walked(b: SyntaxNode, out: Seq<AstNode>, sid: usize) -> bool
    decreases b, 2int,
{
    out.len() == b.children@.len() && (forall|k: int|
        0 <= k < out.len() ==> walked_exp(#[trigger] b.children@[k], out[k], sid))
}

/// A dataframe column node: one inner node, optionally a rename.
pub open spec fn df_col_ok(ch: SyntaxNode) -> bool
    decreases ch, 2int,
{
    ch.children@.len() == 1 && df_inner_ok(ch.children@[0])
}

pub open spec fn df_inner_ok(inner: SyntaxNode) -> bool
    decreases inner, 2int,
{
    if inner.rule is RenameSeriesExp {
        inner.children@.len() == 2 && exp_ok(inner.children@[1])
    } else {
        exp_ok(inner)
    }
}

/// The expression node of a dataframe column.
pub open spec fn df_exp_node(ch: SyntaxNode) -> SyntaxNode {
    if ch.children@.len() >= 1 {
        let inner = ch.children@[0];
        if inner.rule is RenameSeriesExp && inner.children@.len() >= 2 {
            inner.children@[1]
        } else {
            inner
        }
    } else {
        ch
    }
}

/// The name a dataframe column takes in a fold: explicit or positional.
pub open spec fn df_syn_name(ch: SyntaxNode, i: int) -> Seq<char> {
    if ch.children@.len() >= 1 && ch.children@[0].rule is RenameSeriesExp
        && ch.children@[0].children@.len() >= 2 {
        ch.children@[0].children@[0].text@
    } else {
        col_default_name(i as nat)
    }
}

/// The walked column of a dataframe literal: explicit name and walked
/// expression, or no name and the walked inner expression, at the column's
/// own offset.
pub open spec fn df_col_walked(ch: SyntaxNode, c: DfCol, sid: usize) -> bool
    decreases ch, 2int,
{
    ch.children@.len() == 1 && c.start == ch.start && {
        let inner = ch.children@[0];
        if inner.rule is RenameSeriesExp {
            &&& inner.children@.len() == 2
            &&& (c.name matches Some(nm) && nm == inner.children@[0].text)
            &&& walked_exp(inner.children@[1], c.exp, sid)
        } else {
            c.name is None && walked_exp(inner, c.exp, sid)
        }
    }
}

pub open spec fn df_cols_walked(n: SyntaxNode, cols: Seq<DfCol>, sid: usize) -> bool
    decreases n, 0int,
{
    cols.len() == n.children@.len() && (forall|i: int|
        0 <= i < cols.len() ==> df_col_walked(#[trigger] n.children@[i], cols[i], sid))
}

/// A matrix column node: one inner expression, never renamed.
pub open spec fn mat_col_node_ok(ch: SyntaxNode) -> bool
    decreases ch, 2int,
{
    ch.children@.len() == 1 && exp_ok(ch.children@[0])
}

pub open spec fn mat_exp_node(ch: SyntaxNode) -> SyntaxNode {
    if ch.children@.len() >= 1 {
        ch.children@[0]
    } else {
        ch
    }
}

pub open spec fn mat_col_walked(ch: SyntaxNode, c: DfCol, sid: usize) -> bool
    decreases ch, 2int,
{
    ch.children@.len() == 1 && c.start == ch.start && c.name is None && walked_exp(
        ch.children@[0],
        c.exp,
        sid,
    )
}

pub open spec fn mat_cols_walked(n: SyntaxNode, cols: Seq<DfCol>, sid: usize) -> bool
    decreases n, 0int,
{
    cols.len() == n.children@.len() && (forall|i: int|
        0 <= i < cols.len() ==> mat_col_walked(#[trigger] n.children@[i], cols[i], sid))
}

/// The dataframe fold conditions, over the syntax alone: every constant
/// column can stand as a series, and when all columns are constant their
/// names are unique and their lengths equal.
pub open spec fn df_conv_ok(n: SyntaxNode) -> bool {
    forall|i: int|
        0 <= i < n.children@.len() && is_const_node(df_exp_node(#[trigger] n.children@[i]))
            ==> const_seriesable(df_exp_node(n.children@[i]))
}

pub open spec fn df_all_const_syn(n: SyntaxNode) -> bool {
    forall|i: int|
        0 <= i < n.children@.len() ==> is_const_node(df_exp_node(#[trigger] n.children@[i]))
}

pub open spec fn df_shape_ok(n: SyntaxNode) -> bool {
    &&& (forall|i: int, j: int|
        0 <= i < j < n.children@.len() ==> df_syn_name(#[trigger] n.children@[i], i)
            != df_syn_name(#[trigger] n.children@[j], j))
    &&& (forall|i: int|
        0 <= i < n.children@.len() ==> const_len(df_exp_node(#[trigger] n.children@[i]))
            == const_len(df_exp_node(n.children@[0])))
}

pub open spec fn df_fold_ok(n: SyntaxNode) -> bool {
    df_conv_ok(n) && (df_all_const_syn(n) ==> df_shape_ok(n))
}

/// The matrix fold conditions, over the syntax alone.
pub open spec fn mat_all_const_syn(n: SyntaxNode) -> bool {
    forall|i: int|
        0 <= i < n.children@.len() ==> is_const_node(mat_exp_node(#[trigger] n.children@[i]))
}

pub open spec fn mat_types_ok(n: SyntaxNode) -> bool {
    forall|i: int|
        0 <= i < n.children@.len() && is_const_node(mat_exp_node(#[trigger] n.children@[i]))
            ==> const_num_or_bool(mat_exp_node(n.children@[i]))
}

pub open spec fn mat_shape_ok(n: SyntaxNode) -> bool {
    &&& (forall|i: int|
        0 <= i < n.children@.len() ==> const_no_null(mat_exp_node(#[trigger] n.children@[i])))
    &&& (forall|i: int|
        0 <= i < n.children@.len() ==> const_len(mat_exp_node(#[trigger] n.children@[i]))
            == const_len(mat_exp_node(n.children@[0])))
}

pub open spec fn mat_fold_ok(n: SyntaxNode) -> bool {
    mat_types_ok(n) && (mat_all_const_syn(n) ==> mat_shape_ok(n))
}

/// The matrix type error, over the syntax alone: at the first constant
/// column of a non-numeric, non-boolean type, naming that type.
pub open spec fn mat_syn_err_at(n: SyntaxNode, e: SpanErr) -> bool {
    exists|i: int|
        #![trigger n.children@[i]]
        0 <= i < n.children@.len() && is_const_node(mat_exp_node(n.children@[i]))
            && !const_num_or_bool(mat_exp_node(n.children@[i])) && e.pos == n.children@[i].start
            && e.msg@ == "Requires numeric data type, got '"@ + const_type_name(
            mat_exp_node(n.children@[i]),
        ) + "'"@ && (forall|j: int|
            0 <= j < i ==> !(is_const_node(mat_exp_node(#[trigger] n.children@[j]))
                && !const_num_or_bool(mat_exp_node(n.children@[j]))))
}

/// One element of a list literal: a bare operator becomes an operator node,
/// anything else its walked expression.
pub open spec fn list_item_ok(ch: SyntaxNode) -> bool
    decreases ch, 2int,
{
    ch.rule is BinaryOp || exp_ok(ch)
}

pub open spec fn list_item_walked(ch: SyntaxNode, a: AstNode, sid: usize) -> bool
    decreases ch, 2int,
{
    if ch.rule is BinaryOp {
        a == AstNode::Op { name: ch.text, start: ch.start, source_id: sid }
    } else {
        walked_exp(ch, a, sid)
    }
}

/// One key-value pair of a dict literal.
pub open spec fn kv_ok(ch: SyntaxNode) -> bool
    decreases ch, 2int,
{
    ch.children@.len() == 2 && exp_ok(ch.children@[1])
}

pub open spec fn kv_walked(ch: SyntaxNode, key: String, val: AstNode, sid: usize) -> bool
    decreases ch, 2int,
{
    ch.children@.len() == 2 && key == ch.children@[0].text && walked_exp(
        ch.children@[1],
        val,
        sid,
    )
}

/// One SQL projection or grouping column.
pub open spec fn col_ok(n: SyntaxNode) -> bool
    decreases n, 2int,
{
    match n.rule {
        Rule::SeriesExp => n.children@.len() >= 1 && col_ok(n.children@[0]),
        Rule::RenameSeriesExp => n.children@.len() >= 2 && exp_ok(n.children@[1]),
        Rule::SeriesName => true,
        _ => exp_ok(n),
    }
}

pub open spec fn col_walked(n: SyntaxNode, a: AstNode, sid: usize) -> bool
    decreases n, 2int,
{
    match n.rule {
        Rule::SeriesExp => n.children@.len() >= 1 && col_walked(n.children@[0], a, sid),
        Rule::RenameSeriesExp => n.children@.len() >= 2 && (a matches AstNode::Series { name, exp }
            && name == n.children@[0].text && walked_exp(n.children@[1], *exp, sid)),
        Rule::SeriesName => a == AstNode::Id { name: n.text, start: n.start, source_id: sid },
        _ => walked_exp(n, a, sid),
    }
}

/// One clause of an SQL query.
pub open spec fn sql_clause_ok(ch: SyntaxNode) -> bool
    decreases ch, 2int,
{
    match ch.rule {
        Rule::FromExp => ch.children@.len() >= 1 && exp_ok(ch.children@[0]),
        Rule::FilterExp => forall|k: int|
            0 <= k < ch.children@.len() ==> exp_ok(#[trigger] ch.children@[k]),
        Rule::SelectOp | Rule::UpdateOp | Rule::DeleteOp | Rule::GroupExp => forall|k: int|
            0 <= k < ch.children@.len() ==> col_ok(#[trigger] ch.children@[k]),
        Rule::SortOp => true,
        Rule::TakeOp => ch.children@.len() >= 1 && exp_ok(ch.children@[0]),
        _ => false,
    }
}

pub open spec fn sql_ok(n: SyntaxNode) -> bool
    decreases n, 0int,
{
    forall|i: int| 0 <= i < n.children@.len() ==> sql_clause_ok(#[trigger] n.children@[i])
}

/// The walked expressions of one exp-holding clause, in order.
pub open spec fn clause_exps_walked(ch: SyntaxNode, out: Seq<AstNode>, sid: usize) -> bool
    decreases ch, 2int,
{
    out.len() == ch.children@.len() && (forall|k: int|
        0 <= k < out.len() ==> walked_exp(#[trigger] ch.children@[k], out[k], sid))
}

/// The walked columns of one projection or grouping clause, in order.
pub open spec fn clause_cols_walked(ch: SyntaxNode, out: Seq<AstNode>, sid: usize) -> bool
    decreases ch, 2int,
{
    out.len() == ch.children@.len() && (forall|k: int|
        0 <= k < out.len() ==> col_walked(#[trigger] ch.children@[k], out[k], sid))
}

/// The walked sort specifiers: identifiers carrying the specifier text
/// verbatim, a leading minus included.
pub open spec fn clause_sorts_walked(ch: SyntaxNode, out: Seq<AstNode>, sid: usize) -> bool {
    out.len() == ch.children@.len() && (forall|k: int|
        0 <= k < out.len() ==> #[trigger] out[k] == AstNode::Id {
            name: ch.children@[k].text,
            start: ch.children@[k].start,
            source_id: sid,
        })
}

/// The source of the query: the walked expression of the last `from`
/// clause, or a placeholder when none stands.
pub open spec fn sql_from_walked(cs: Seq<SyntaxNode>, a: AstNode, sid: usize) -> bool
    decreases cs, 2int,
{
    if cs.len() == 0 {
        a is Skip
    } else if cs.last().rule is FromExp {
        cs.last().children@.len() >= 1 && walked_exp(cs.last().children@[0], a, sid)
    } else {
        sql_from_walked(cs.drop_last(), a, sid)
    }
}

/// The limit: the walked expression of the last `take` clause, or a
/// placeholder when none stands.
pub open spec fn sql_take_walked(cs: Seq<SyntaxNode>, a: AstNode, sid: usize) -> bool
    decreases cs, 2int,
{
    if cs.len() == 0 {
        a is Skip
    } else if cs.last().rule is TakeOp {
        cs.last().children@.len() >= 1 && walked_exp(cs.last().children@[0], a, sid)
    } else {
        sql_take_walked(cs.drop_last(), a, sid)
    }
}

/// The expressions of the last clause of the given kind; clauses of these
/// kinds replace earlier ones.
pub open spec fn sql_last_exps_walked(
    cs: Seq<SyntaxNode>,
    rule: Rule,
    out: Seq<AstNode>,
    sid: usize,
) -> bool
    decreases cs, 2int,
{
    if cs.len() == 0 {
        out.len() == 0
    } else if cs.last().rule == rule {
        clause_exps_walked(cs.last(), out, sid)
    } else {
        sql_last_exps_walked(cs.drop_last(), rule, out, sid)
    }
}

pub open spec fn sql_last_cols_walked(
    cs: Seq<SyntaxNode>,
    rule: Rule,
    out: Seq<AstNode>,
    sid: usize,
) -> bool
    decreases cs, 2int,
{
    if cs.len() == 0 {
        out.len() == 0
    } else if cs.last().rule == rule {
        clause_cols_walked(cs.last(), out, sid)
    } else {
        sql_last_cols_walked(cs.drop_last(), rule, out, sid)
    }
}

pub open spec fn sql_last_sorts_walked(cs: Seq<SyntaxNode>, out: Seq<AstNode>, sid: usize) -> bool
    decreases cs, 2int,
{
    if cs.len() == 0 {
        out.len() == 0
    } else if cs.last().rule is SortOp {
        clause_sorts_walked(cs.last(), out, sid)
    } else {
        sql_last_sorts_walked(cs.drop_last(), out, sid)
    }
}

/// The projections, accumulated across every operation clause in source
/// order.
pub open spec fn sql_ops_walked(cs: Seq<SyntaxNode>, out: Seq<AstNode>, sid: usize) -> bool
    decreases cs, 2int,
{
    if cs.len() == 0 {
        out.len() == 0
    } else if cs.last().rule is SelectOp || cs.last().rule is UpdateOp || cs.last().rule
        is DeleteOp {
        let m = cs.last().children@.len() as int;
        out.len() >= m && sql_ops_walked(cs.drop_last(), out.take(out.len() - m), sid)
            && clause_cols_walked(cs.last(), out.skip(out.len() - m), sid)
    } else {
        sql_ops_walked(cs.drop_last(), out, sid)
    }
}

/// The walked SQL node: query kind from the last operation clause (`select`
/// by default), the source and limit from the last `from`/`take` clauses
/// (placeholders when absent), filters, groups and sorts from the last
/// clause of each kind, projections accumulated.
pub open spec fn sql_walked(n: SyntaxNode, a: AstNode, sid: usize) -> bool
    decreases n, 0int,
{
    a matches AstNode::Sql { op, from, filters, groups, ops, sorts, take, start, source_id }
        && start == n.start && source_id == sid && op@ == sql_op_text(n.children@)
        && sql_from_walked(n.children@, *from, sid) && sql_take_walked(n.children@, *take, sid)
        && sql_last_exps_walked(n.children@, Rule::FilterExp, filters@, sid)
        && sql_last_cols_walked(n.children@, Rule::GroupExp, groups@, sid)
        && sql_last_sorts_walked(n.children@, sorts@, sid) && sql_ops_walked(
        n.children@,
        ops@,
        sid,
    )
}

/// Trigger marker for the dataframe column witness.
pub open spec fn df_cols_witness(n: SyntaxNode, cols: Seq<DfCol>) -> bool {
    true
}

/// Trigger marker for the matrix column witness.
pub open spec fn mat_cols_witness(n: SyntaxNode, cols: Seq<DfCol>) -> bool {
    true
}

/// What a dataframe literal builds from its walked columns: folded to one
/// constant tabular value when every column is constant, else a deferred
/// composite node.
pub open spec fn df_result(cols: Seq<DfCol>, a: AstNode) -> bool {
    &&& df_all_seriesable(cols)
    &&& if df_all_const(cols) {
        &&& df_names_unique(cols)
        &&& df_lens_equal(cols)
        &&& (a matches AstNode::J(j) && (j matches J::DataFrame(df) && df.columns@.len()
            == cols.len() && (forall|i: int|
            0 <= i < cols.len() ==> df_const_series(#[trigger] cols[i], i, df.columns@[i]))))
    } else {
        a matches AstNode::Dataframe(exps) && exps@.len() == cols.len() && (forall|i: int|
            0 <= i < cols.len() ==> df_deferred_col(#[trigger] cols[i], i, exps@[i]))
    }
}

/// What a matrix literal builds from its walked columns.
pub open spec fn mat_result(cols: Seq<DfCol>, a: AstNode) -> bool {
    &&& mat_all_ok(cols)
    &&& if df_all_const(cols) {
        &&& mat_no_null(cols)
        &&& df_lens_equal(cols)
        &&& (a matches AstNode::J(j) && (j matches J::Matrix(mx) && mx.columns@.len() == cols.len()
            && (cols.len() > 0 ==> mx.n_rows == df_col_len(cols[0])) && (forall|i: int|
            0 <= i < cols.len() ==> mat_cells_of(#[trigger] cols[i], mx.columns@[i]@))))
    } else {
        a matches AstNode::Matrix(exps) && exps@.len() == cols.len() && (forall|i: int|
            0 <= i < cols.len() ==> mat_deferred_col(#[trigger] cols[i], i, exps@[i]))
    }
}

/// Whether the walker accepts a syntax node.
pub open spec fn exp_ok(n: SyntaxNode) -> bool
    decreases n, 1int,
{
    match n.rule {
        Rule::Exp | Rule::BracketExp => n.children@.len() >= 1 && exp_ok(n.children@[0]),
        Rule::Integer | Rule::Decimal | Rule::Boolean | Rule::Date | Rule::Time | Rule::Datetime
            | Rule::Timestamp | Rule::Duration | Rule::Enum | Rule::Str | Rule::NoneLit => literal_ok(
            n.rule,
            n.text@,
        ),
        Rule::Id => true,
        Rule::Series => crate::series::all_elems_ok(
            crate::series::series_kind_of(elems_of(n.children@)),
            elems_of(n.children@),
        ),
        Rule::AssignmentExp => n.children@.len() == 2 && {
            let t = n.children@[0];
            if t.rule is FnCall {
                t.children@.len() >= 1 && idx_args_ok(t) && exp_ok(n.children@[1])
            } else if t.rule is Id {
                exp_ok(n.children@[1])
            } else {
                false
            }
        },
        Rule::UnaryExp => n.children@.len() == 2 && exp_ok(n.children@[0]) && exp_ok(
            n.children@[1],
        ),
        Rule::BinaryExp => n.children@.len() == 3 && exp_ok(n.children@[0]) && binop_ok(
            n.children@[1],
        ) && exp_ok(n.children@[2]),
        Rule::Fn => n.children@.len() >= 1 && n.children@[0].rule is Params && (forall|k: int|
            1 <= k < n.children@.len() ==> exp_ok(#[trigger] n.children@[k])),
        Rule::FnCall => n.children@.len() >= 1 && exp_ok(n.children@[0]) && (forall|k: int|
            1 <= k < n.children@.len() ==> arg_ok(#[trigger] n.children@[k])),
        Rule::IfExp | Rule::WhileExp => n.children@.len() == 2 && exp_ok(n.children@[0])
            && stmts_cut_ok(n.children@[1]),
        Rule::TryExp => n.children@.len() == 3 && stmts_all_ok(n.children@[0]) && stmts_all_ok(
            n.children@[2],
        ),
        Rule::ReturnExp | Rule::RaiseExp => n.children@.len() == 1 && exp_ok(n.children@[0]),
        Rule::Dataframe => (forall|i: int|
            0 <= i < n.children@.len() ==> df_col_ok(#[trigger] n.children@[i])) && df_fold_ok(n),
        Rule::Matrix => (forall|i: int|
            0 <= i < n.children@.len() ==> mat_col_node_ok(#[trigger] n.children@[i])) && mat_fold_ok(
            n,
        ),
        Rule::SqlExp => sql_ok(n),
        Rule::List => forall|k: int|
            0 <= k < n.children@.len() ==> list_item_ok(#[trigger] n.children@[k]),
        Rule::Dict => forall|k: int|
            0 <= k < n.children@.len() ==> kv_ok(#[trigger] n.children@[k]),
        Rule::Skip => true,
        _ => false,
    }
}

/// The AST node the walk produces for a syntax node, tied recursively to the
/// walked children.
pub open spec fn walked_exp(n: SyntaxNode, a: AstNode, sid: usize) -> bool
    decreases n, 1int,
{
    match n.rule {
        Rule::Exp | Rule::BracketExp => n.children@.len() >= 1 && walked_exp(
            n.children@[0],
            a,
            sid,
        ),
        Rule::Integer | Rule::Decimal | Rule::Boolean | Rule::Date | Rule::Time | Rule::Datetime
            | Rule::Timestamp | Rule::Duration | Rule::Enum | Rule::Str | Rule::NoneLit => a matches AstNode::J(
            j,
        ) && literal_matches(n.rule, n.text@, j),
        Rule::Id => a == AstNode::Id { name: n.text, start: n.start, source_id: sid },
        Rule::Series => a matches AstNode::J(j) && (j matches J::Series(s) && s.name@
            == Seq::<char>::empty() && crate::series::series_content(
            crate::series::series_kind_of(elems_of(n.children@)),
            elems_of(n.children@),
            s.data,
        )),
        Rule::AssignmentExp => n.children@.len() == 2 && {
            let t = n.children@[0];
            if t.rule is FnCall {
                a matches AstNode::IndexAssign { id, indices, exp } && t.children@.len() >= 1 && id
                    == t.children@[0].text && idx_args_walked(t, indices@, sid) && walked_exp(
                    n.children@[1],
                    *exp,
                    sid,
                )
            } else if t.rule is Id {
                a matches AstNode::Assign { id, exp } && id == t.text && walked_exp(
                    n.children@[1],
                    *exp,
                    sid,
                )
            } else {
                false
            }
        },
        Rule::UnaryExp => n.children@.len() == 2 && (a matches AstNode::UnaryOp { op, exp }
            && walked_exp(n.children@[0], *op, sid) && walked_exp(n.children@[1], *exp, sid)),
        Rule::BinaryExp => n.children@.len() == 3 && (a matches AstNode::BinOp { op, lhs, rhs }
            && walked_exp(n.children@[0], *lhs, sid) && binop_walked(n.children@[1], *op, sid)
            && walked_exp(n.children@[2], *rhs, sid)),
        Rule::Fn => a matches AstNode::Fn { stmts, arg_names, fn_body, start, source_id }
            && fn_body == n.text && start == n.start && source_id == sid && n.children@.len() >= 1
            && params_walked(n.children@[0], arg_names@) && stmts@.len() + 1 == n.children@.len()
            && (forall|k: int|
            0 <= k < stmts@.len() ==> walked_exp(#[trigger] n.children@[k + 1], stmts@[k], sid)),
        Rule::FnCall => a matches AstNode::Call { f, args, start, source_id } && start == n.start
            && source_id == sid && n.children@.len() >= 1 && walked_exp(n.children@[0], *f, sid)
            && args@.len() + 1 == n.children@.len() && (forall|k: int|
            0 <= k < args@.len() ==> walked_arg(#[trigger] n.children@[k + 1], args@[k], sid)),
        Rule::IfExp => n.children@.len() == 2 && (a matches AstNode::If { cond, stmts }
            && walked_exp(n.children@[0], *cond, sid) && stmts_cut_walked(
            n.children@[1],
            stmts@,
            sid,
        )),
        Rule::WhileExp => n.children@.len() == 2 && (a matches AstNode::While { cond, stmts }
            && walked_exp(n.children@[0], *cond, sid) && stmts_cut_walked(
            n.children@[1],
            stmts@,
            sid,
        )),
        Rule::TryExp => n.children@.len() == 3 && (a matches AstNode::Try { tries, catches }
            && stmts_all_walked(n.children@[0], tries@, sid) && stmts_all_walked(
            n.children@[2],
            catches@,
            sid,
        )),
        Rule::ReturnExp => n.children@.len() == 1 && (a matches AstNode::Return(e) && walked_exp(
            n.children@[0],
            *e,
            sid,
        )),
        Rule::RaiseExp => n.children@.len() == 1 && (a matches AstNode::Raise(e) && walked_exp(
            n.children@[0],
            *e,
            sid,
        )),
        Rule::Dataframe => exists|cols: Seq<DfCol>|
            (#[trigger] df_cols_witness(n, cols)) && df_cols_walked(n, cols, sid) && df_result(
                cols,
                a,
            ),
        Rule::Matrix => exists|cols: Seq<DfCol>|
            (#[trigger] mat_cols_witness(n, cols)) && mat_cols_walked(n, cols, sid) && mat_result(
                cols,
                a,
            ),
        Rule::SqlExp => sql_walked(n, a, sid),
        Rule::List => a matches AstNode::List(xs) && xs@.len() == n.children@.len() && (forall|
            k: int,
        |
            0 <= k < xs@.len() ==> list_item_walked(#[trigger] n.children@[k], xs@[k], sid)),
        Rule::Dict => a matches AstNode::Dict { keys, values } && keys@.len() == n.children@.len()
            && values@.len() == n.children@.len() && (forall|k: int|
            0 <= k < keys@.len() ==> kv_walked(
                #[trigger] n.children@[k],
                keys@[k],
                values@[k],
                sid,
            )),
        Rule::Skip => a is Skip,
        _ => false,
    }
}


/// A literal's value fixes its constancy attributes.
proof fn lemma_literal_const_facts(n: SyntaxNode, j: J)
    requires
        literal_matches(n.rule, n.text@, j),
        n.rule is Integer || n.rule is Decimal || n.rule is Boolean || n.rule is Date || n.rule
            is Time || n.rule is Datetime || n.rule is Timestamp || n.rule is Duration || n.rule
            is Enum || n.rule is Str || n.rule is NoneLit,
    ensures
        const_facts(n, AstNode::J(j)),
{
}

/// The slots a series literal builds determine its length, kind and absent
/// slots.
proof fn lemma_series_content_facts(
    k: crate::classify::SeriesKind,
    elems: Seq<SeriesElem>,
    d: SeriesData,
)
    requires
        crate::series::series_content(k, elems, d),
    ensures
        series_spec_len(d) == elems.len(),
        series_spec_kind(d) == k,
        data_no_null(d) <==> (forall|i: int|
            0 <= i < elems.len() ==> !crate::series::elem_slot_absent(
                k,
                (#[trigger] elems[i]).text@,
            )),
{
    match d {
        SeriesData::Bool(v) => {
            assert(data_no_null(d) <==> (forall|i: int|
                0 <= i < elems.len() ==> !crate::series::elem_slot_absent(
                    k,
                    (#[trigger] elems[i]).text@,
                ))) by {
                if data_no_null(d) {
                    assert forall|i: int|
                        0 <= i < elems.len() implies !crate::series::elem_slot_absent(
                        k,
                        (#[trigger] elems[i]).text@,
                    ) by {
                        assert(v@[i] is Some);
                    }
                } else {
                    let w = choose|q: int| 0 <= q < v@.len() && !((#[trigger] v@[q]) is Some);
                    assert(crate::series::elem_slot_absent(k, elems[w].text@));
                }
            }
        },
        SeriesData::U8(v) => {
            assert(data_no_null(d) <==> (forall|i: int|
                0 <= i < elems.len() ==> !crate::series::elem_slot_absent(
                    k,
                    (#[trigger] elems[i]).text@,
                ))) by {
                if data_no_null(d) {
                    assert forall|i: int|
                        0 <= i < elems.len() implies !crate::series::elem_slot_absent(
                        k,
                        (#[trigger] elems[i]).text@,
                    ) by {
                        assert(v@[i] is Some);
                    }
                } else {
                    let w = choose|q: int| 0 <= q < v@.len() && !((#[trigger] v@[q]) is Some);
                    assert(crate::series::elem_slot_absent(k, elems[w].text@));
                }
            }
        },
        SeriesData::I8(v) => {
            assert(data_no_null(d) <==> (forall|i: int|
                0 <= i < elems.len() ==> !crate::series::elem_slot_absent(
                    k,
                    (#[trigger] elems[i]).text@,
                ))) by {
                if data_no_null(d) {
                    assert forall|i: int|
                        0 <= i < elems.len() implies !crate::series::elem_slot_absent(
                        k,
                        (#[trigger] elems[i]).text@,
                    ) by {
                        assert(v@[i] is Some);
                    }
                } else {
                    let w = choose|q: int| 0 <= q < v@.len() && !((#[trigger] v@[q]) is Some);
                    assert(crate::series::elem_slot_absent(k, elems[w].text@));
                }
            }
        },
        SeriesData::U16(v) => {
            assert(data_no_null(d) <==> (forall|i: int|
                0 <= i < elems.len() ==> !crate::series::elem_slot_absent(
                    k,
                    (#[trigger] elems[i]).text@,
                ))) by {
                if data_no_null(d) {
                    assert forall|i: int|
                        0 <= i < elems.len() implies !crate::series::elem_slot_absent(
                        k,
                        (#[trigger] elems[i]).text@,
                    ) by {
                        assert(v@[i] is Some);
                    }
                } else {
                    let w = choose|q: int| 0 <= q < v@.len() && !((#[trigger] v@[q]) is Some);
                    assert(crate::series::elem_slot_absent(k, elems[w].text@));
                }
            }
        },
        SeriesData::I16(v) => {
            assert(data_no_null(d) <==> (forall|i: int|
                0 <= i < elems.len() ==> !crate::series::elem_slot_absent(
                    k,
                    (#[trigger] elems[i]).text@,
                ))) by {
                if data_no_null(d) {
                    assert forall|i: int|
                        0 <= i < elems.len() implies !crate::series::elem_slot_absent(
                        k,
                        (#[trigger] elems[i]).text@,
                    ) by {
                        assert(v@[i] is Some);
                    }
                } else {
                    let w = choose|q: int| 0 <= q < v@.len() && !((#[trigger] v@[q]) is Some);
                    assert(crate::series::elem_slot_absent(k, elems[w].text@));
                }
            }
        },
        SeriesData::U32(v) => {
            assert(data_no_null(d) <==> (forall|i: int|
                0 <= i < elems.len() ==> !crate::series::elem_slot_absent(
                    k,
                    (#[trigger] elems[i]).text@,
                ))) by {
                if data_no_null(d) {
                    assert forall|i: int|
                        0 <= i < elems.len() implies !crate::series::elem_slot_absent(
                        k,
                        (#[trigger] elems[i]).text@,
                    ) by {
                        assert(v@[i] is Some);
                    }
                } else {
                    let w = choose|q: int| 0 <= q < v@.len() && !((#[trigger] v@[q]) is Some);
                    assert(crate::series::elem_slot_absent(k, elems[w].text@));
                }
            }
        },
        SeriesData::I32(v) => {
            assert(data_no_null(d) <==> (forall|i: int|
                0 <= i < elems.len() ==> !crate::series::elem_slot_absent(
                    k,
                    (#[trigger] elems[i]).text@,
                ))) by {
                if data_no_null(d) {
                    assert forall|i: int|
                        0 <= i < elems.len() implies !crate::series::elem_slot_absent(
                        k,
                        (#[trigger] elems[i]).text@,
                    ) by {
                        assert(v@[i] is Some);
                    }
                } else {
                    let w = choose|q: int| 0 <= q < v@.len() && !((#[trigger] v@[q]) is Some);
                    assert(crate::series::elem_slot_absent(k, elems[w].text@));
                }
            }
        },
        SeriesData::U64(v) => {
            assert(data_no_null(d) <==> (forall|i: int|
                0 <= i < elems.len() ==> !crate::series::elem_slot_absent(
                    k,
                    (#[trigger] elems[i]).text@,
                ))) by {
                if data_no_null(d) {
                    assert forall|i: int|
                        0 <= i < elems.len() implies !crate::series::elem_slot_absent(
                        k,
                        (#[trigger] elems[i]).text@,
                    ) by {
                        assert(v@[i] is Some);
                    }
                } else {
                    let w = choose|q: int| 0 <= q < v@.len() && !((#[trigger] v@[q]) is Some);
                    assert(crate::series::elem_slot_absent(k, elems[w].text@));
                }
            }
        },
        SeriesData::I64(v) => {
            assert(data_no_null(d) <==> (forall|i: int|
                0 <= i < elems.len() ==> !crate::series::elem_slot_absent(
                    k,
                    (#[trigger] elems[i]).text@,
                ))) by {
                if data_no_null(d) {
                    assert forall|i: int|
                        0 <= i < elems.len() implies !crate::series::elem_slot_absent(
                        k,
                        (#[trigger] elems[i]).text@,
                    ) by {
                        assert(v@[i] is Some);
                    }
                } else {
                    let w = choose|q: int| 0 <= q < v@.len() && !((#[trigger] v@[q]) is Some);
                    assert(crate::series::elem_slot_absent(k, elems[w].text@));
                }
            }
        },
        SeriesData::F32(v) => {
            assert(data_no_null(d) <==> (forall|i: int|
                0 <= i < elems.len() ==> !crate::series::elem_slot_absent(
                    k,
                    (#[trigger] elems[i]).text@,
                ))) by {
                if data_no_null(d) {
                    assert forall|i: int|
                        0 <= i < elems.len() implies !crate::series::elem_slot_absent(
                        k,
                        (#[trigger] elems[i]).text@,
                    ) by {
                        assert(v@[i] is Some);
                    }
                } else {
                    let w = choose|q: int| 0 <= q < v@.len() && !((#[trigger] v@[q]) is Some);
                    assert(crate::series::elem_slot_absent(k, elems[w].text@));
                }
            }
        },
        SeriesData::F64(v) => {
            assert(data_no_null(d) <==> (forall|i: int|
                0 <= i < elems.len() ==> !crate::series::elem_slot_absent(
                    k,
                    (#[trigger] elems[i]).text@,
                ))) by {
                if data_no_null(d) {
                    assert forall|i: int|
                        0 <= i < elems.len() implies !crate::series::elem_slot_absent(
                        k,
                        (#[trigger] elems[i]).text@,
                    ) by {
                        assert(v@[i] is Some);
                    }
                } else {
                    let w = choose|q: int| 0 <= q < v@.len() && !((#[trigger] v@[q]) is Some);
                    assert(crate::series::elem_slot_absent(k, elems[w].text@));
                }
            }
        },
        _ => {},
    }
}

/// With no `return` among the first `k` statements, the cut reaches past
/// them.
proof fn lemma_cut_lb(cs: Seq<SyntaxNode>, k: int)
    requires
        0 <= k < cs.len(),
        forall|j: int| 0 <= j < k ==> !((#[trigger] cs[j]).rule is ReturnExp),
    ensures
        first_return_cut(cs) >= k + 1,
    decreases k,
{
    if k == 0 {
        lemma_cut_bounds(cs.drop_first());
    } else {
        let tail = cs.drop_first();
        assert(forall|j: int| 0 <= j < k - 1 ==> #[trigger] tail[j] == cs[j + 1]);
        lemma_cut_lb(tail, k - 1);
    }
}

/// The walked column's fold name equals the syntactic one.
proof fn lemma_df_name_link(ch: SyntaxNode, c: DfCol, i: int, sid: usize)
    requires
        df_col_walked(ch, c, sid),
    ensures
        df_col_name(c, i) == df_syn_name(ch, i),
{
}


/// A walked column's value-level attributes coincide with the syntactic
/// ones of its expression node.
proof fn lemma_col_links(e: SyntaxNode, c: DfCol)
    requires
        const_facts(e, c.exp),
    ensures
        df_col_const(c) <==> is_const_node(e),
        mat_col_ok(c) <==> (is_const_node(e) ==> const_num_or_bool(e)),
        df_col_const(c) ==> (mat_col_no_null(c) <==> const_no_null(e)),
        df_col_const(c) ==> (df_col_seriesable(c) <==> const_seriesable(e)),
        df_col_const(c) && df_col_seriesable(c) ==> df_col_len(c) == const_len(e),
        c.exp matches AstNode::J(j) ==> mat_type_name(c) == const_type_name(e),
{
}

/// Introduction of the dataframe walk relation from a column witness.
proof fn lemma_walked_df_intro(n: SyntaxNode, cols: Seq<DfCol>, a: AstNode, sid: usize)
    requires
        n.rule is Dataframe,
        df_cols_walked(n, cols, sid),
        df_result(cols, a),
    ensures
        walked_exp(n, a, sid),
{
    assert(df_cols_witness(n, cols));
}

/// Introduction of the matrix walk relation from a column witness.
proof fn lemma_walked_mat_intro(n: SyntaxNode, cols: Seq<DfCol>, a: AstNode, sid: usize)
    requires
        n.rule is Matrix,
        mat_cols_walked(n, cols, sid),
        mat_result(cols, a),
    ensures
        walked_exp(n, a, sid),
{
    assert(mat_cols_witness(n, cols));
}

} // verus!
