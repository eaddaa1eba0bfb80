//! The typed abstract syntax tree: one tagged variant per syntactic
//! construct, each node owning its children exclusively.

use vstd::prelude::*;

use crate::chars::fmt_u64;
use crate::errors::JError;
use crate::j::J;

verus! {

broadcast use vstd::std_specs::vec::group_vec_axioms, vstd::seq::group_seq_axioms;

/// A node of the abstract syntax tree. Offsets are byte offsets into the
/// source unit named by `source_id`.
#[derive(Debug)]
pub enum AstNode {
    J(J),
    Fn {
        stmts: Vec<AstNode>,
        arg_names: Vec<String>,
        fn_body: String,
        start: usize,
        source_id: usize,
    },
    UnaryOp {
        op: Box<AstNode>,
        exp: Box<AstNode>,
    },
    BinOp {
        op: Box<AstNode>,
        lhs: Box<AstNode>,
        rhs: Box<AstNode>,
    },
    Assign {
        id: String,
        exp: Box<AstNode>,
    },
    IndexAssign {
        id: String,
        indices: Vec<AstNode>,
        exp: Box<AstNode>,
    },
    Op {
        name: String,
        start: usize,
        source_id: usize,
    },
    Id {
        name: String,
        start: usize,
        source_id: usize,
    },
    Call {
        f: Box<AstNode>,
        args: Vec<AstNode>,
        start: usize,
        source_id: usize,
    },
    If {
        cond: Box<AstNode>,
        stmts: Vec<AstNode>,
    },
    While {
        cond: Box<AstNode>,
        stmts: Vec<AstNode>,
    },
    Try {
        tries: Vec<AstNode>,
        catches: Vec<AstNode>,
    },
    Return(Box<AstNode>),
    Raise(Box<AstNode>),
    Dataframe(Vec<AstNode>),
    Matrix(Vec<AstNode>),
    Dict {
        keys: Vec<String>,
        values: Vec<AstNode>,
    },
    List(Vec<AstNode>),
    Series {
        name: String,
        exp: Box<AstNode>,
    },
    Sql {
        op: String,
        from: Box<AstNode>,
        filters: Vec<AstNode>,
        groups: Vec<AstNode>,
        ops: Vec<AstNode>,
        sorts: Vec<AstNode>,
        take: Box<AstNode>,
        start: usize,
        source_id: usize,
    },
    Skip,
}

/// Tag of an AST node, as handed to an embedding host.
#[derive(Clone, Copy, PartialEq, Eq, Structural, Debug)]
pub enum AstType {
    J,
    Fn,
    UnaryOp,
    BinOp,
    Assign,
    IndexAssign,
    Op,
    Id,
    Call,
    If,
    While,
    Try,
    Return,
    Raise,
    Dataframe,
    Matrix,
    Dict,
    List,
    Series,
    Sql,
    SqlBracket,
    Skip,
}

/// A narrowed identifier node.
#[derive(Debug)]
pub struct AstId {
    pub name: String,
    pub start: usize,
    pub source_id: usize,
}

/// A narrowed operator node.
#[derive(Debug)]
pub struct AstOp {
    pub name: String,
    pub start: usize,
    pub source_id: usize,
}

/// A narrowed `Fn` node, its parts owned.
#[derive(Debug)]
pub struct AstFn {
    pub stmts: Vec<AstNode>,
    pub arg_names: Vec<String>,
    pub fn_body: String,
    pub start: usize,
    pub source_id: usize,
}

/// A narrowed `UnaryOp` node, its parts owned.
#[derive(Debug)]
pub struct AstUnaryOp {
    pub op: AstNode,
    pub exp: AstNode,
}

/// A narrowed `BinOp` node, its parts owned.
#[derive(Debug)]
pub struct AstBinOp {
    pub op: AstNode,
    pub lhs: AstNode,
    pub rhs: AstNode,
}

/// A narrowed `Assign` node, its parts owned.
#[derive(Debug)]
pub struct AstAssign {
    pub id: String,
    pub exp: AstNode,
}

/// A narrowed `IndexAssign` node, its parts owned.
#[derive(Debug)]
pub struct AstIndexAssign {
    pub id: String,
    pub indices: Vec<AstNode>,
    pub exp: AstNode,
}

/// A narrowed `Call` node, its parts owned.
#[derive(Debug)]
pub struct AstCall {
    pub f: AstNode,
    pub args: Vec<AstNode>,
    pub start: usize,
    pub source_id: usize,
}

/// A narrowed `If` node, its parts owned.
#[derive(Debug)]
pub struct AstIf {
    pub cond: AstNode,
    pub stmts: Vec<AstNode>,
}

/// A narrowed `While` node, its parts owned.
#[derive(Debug)]
pub struct AstWhile {
    pub cond: AstNode,
    pub stmts: Vec<AstNode>,
}

/// A narrowed `Try` node, its parts owned.
#[derive(Debug)]
pub struct AstTry {
    pub tries: Vec<AstNode>,
    pub catches: Vec<AstNode>,
}

/// A narrowed `Sql` node, its parts owned.
#[derive(Debug)]
pub struct AstSql {
    pub op: String,
    pub from_df: AstNode,
    pub filters: Vec<AstNode>,
    pub groups: Vec<AstNode>,
    pub ops: Vec<AstNode>,
    pub sorts: Vec<AstNode>,
    pub take: AstNode,
    pub start: usize,
    pub source_id: usize,
}


/// A narrowed `Return` node.
#[derive(Debug)]
pub struct AstReturn {
    pub exp: AstNode,
}

/// A narrowed `Raise` node.
#[derive(Debug)]
pub struct AstRaise {
    pub exp: AstNode,
}

/// A narrowed deferred dataframe node.
#[derive(Debug)]
pub struct AstDataFrame {
    pub exps: Vec<AstNode>,
}

/// A narrowed deferred matrix node.
#[derive(Debug)]
pub struct AstMatrix {
    pub exps: Vec<AstNode>,
}

/// A narrowed dict literal node.
#[derive(Debug)]
pub struct AstDict {
    pub keys: Vec<String>,
    pub values: Vec<AstNode>,
}

/// A narrowed list literal node.
#[derive(Debug)]
pub struct AstList {
    pub exps: Vec<AstNode>,
}

/// A narrowed deferred column node.
#[derive(Debug)]
pub struct AstSeries {
    pub name: String,
    pub exp: AstNode,
}

/// A narrowed placeholder node.
#[derive(Debug)]
pub struct AstSkip;

pub open spec fn ast_type_of(n: AstNode) -> AstType {
    match n {
        AstNode::J(_) => AstType::J,
        AstNode::Fn { .. } => AstType::Fn,
        AstNode::UnaryOp { .. } => AstType::UnaryOp,
        AstNode::BinOp { .. } => AstType::BinOp,
        AstNode::Assign { .. } => AstType::Assign,
        AstNode::IndexAssign { .. } => AstType::IndexAssign,
        AstNode::Op { .. } => AstType::Op,
        AstNode::Id { .. } => AstType::Id,
        AstNode::Call { .. } => AstType::Call,
        AstNode::If { .. } => AstType::If,
        AstNode::While { .. } => AstType::While,
        AstNode::Try { .. } => AstType::Try,
        AstNode::Return(_) => AstType::Return,
        AstNode::Raise(_) => AstType::Raise,
        AstNode::Dataframe(_) => AstType::Dataframe,
        AstNode::Matrix(_) => AstType::Matrix,
        AstNode::Dict { .. } => AstType::Dict,
        AstNode::List(_) => AstType::List,
        AstNode::Series { .. } => AstType::Series,
        AstNode::Sql { .. } => AstType::Sql,
        AstNode::Skip => AstType::Skip,
    }
}

/// Code of an AST tag for an embedding host.
pub open spec fn ast_type_code(t: AstType) -> u8 {
    match t {
        AstType::J => 0,
        AstType::Fn => 1,
        AstType::UnaryOp => 2,
        AstType::BinOp => 3,
        AstType::Assign => 4,
        AstType::IndexAssign => 5,
        AstType::Op => 6,
        AstType::Id => 7,
        AstType::Call => 8,
        AstType::If => 9,
        AstType::While => 10,
        AstType::Try => 11,
        AstType::Return => 12,
        AstType::Raise => 13,
        AstType::Dataframe => 14,
        AstType::Matrix => 15,
        AstType::Dict => 16,
        AstType::List => 17,
        AstType::Series => 18,
        AstType::Sql => 19,
        AstType::SqlBracket => 20,
        AstType::Skip => 21,
    }
}

impl AstNode {
    /// The node's tag.
    pub fn ast_type(&self) -> (r: AstType)
        ensures
            r == ast_type_of(*self),
    {
        match self {
            AstNode::J(_) => AstType::J,
            AstNode::Fn { .. } => AstType::Fn,
            AstNode::UnaryOp { .. } => AstType::UnaryOp,
            AstNode::BinOp { .. } => AstType::BinOp,
            AstNode::Assign { .. } => AstType::Assign,
            AstNode::IndexAssign { .. } => AstType::IndexAssign,
            AstNode::Op { .. } => AstType::Op,
            AstNode::Id { .. } => AstType::Id,
            AstNode::Call { .. } => AstType::Call,
            AstNode::If { .. } => AstType::If,
            AstNode::While { .. } => AstType::While,
            AstNode::Try { .. } => AstType::Try,
            AstNode::Return(_) => AstType::Return,
            AstNode::Raise(_) => AstType::Raise,
            AstNode::Dataframe(_) => AstType::Dataframe,
            AstNode::Matrix(_) => AstType::Matrix,
            AstNode::Dict { .. } => AstType::Dict,
            AstNode::List(_) => AstType::List,
            AstNode::Series { .. } => AstType::Series,
            AstNode::Sql { .. } => AstType::Sql,
            AstNode::Skip => AstType::Skip,
        }
    }

    /// The node's tag as a number, for an embedding host.
    pub fn get_ast_type(&self) -> (r: u8)
        ensures
            r == ast_type_code(ast_type_of(*self)),
    {
        match self.ast_type() {
            AstType::J => 0,
            AstType::Fn => 1,
            AstType::UnaryOp => 2,
            AstType::BinOp => 3,
            AstType::Assign => 4,
            AstType::IndexAssign => 5,
            AstType::Op => 6,
            AstType::Id => 7,
            AstType::Call => 8,
            AstType::If => 9,
            AstType::While => 10,
            AstType::Try => 11,
            AstType::Return => 12,
            AstType::Raise => 13,
            AstType::Dataframe => 14,
            AstType::Matrix => 15,
            AstType::Dict => 16,
            AstType::List => 17,
            AstType::Series => 18,
            AstType::Sql => 19,
            AstType::SqlBracket => 20,
            AstType::Skip => 21,
        }
    }

    /// Narrows the node to its literal value.
    pub fn as_j(self) -> (r: Result<J, JError>)
        ensures
            r is Ok <==> self is J,
            r matches Ok(j) ==> self == AstNode::J(j),
            r matches Err(e) ==> e matches JError::ParserErr(m) && m@ == "Failed to cast to J"@,
    {
        match self {
            AstNode::J(j) => Ok(j),
            _ => Err(JError::ParserErr("Failed to cast to J".to_owned())),
        }
    }

    /// Narrows the node to an identifier.
    pub fn id(&self) -> (r: Result<AstId, JError>)
        ensures
            r is Ok <==> self is Id,
            r matches Ok(a) ==> self matches AstNode::Id { name, start, source_id } && a.name
                == name && a.start == start && a.source_id == source_id,
            r matches Err(e) ==> e is MismatchedTypeErr,
    {
        match self {
            AstNode::Id { name, start, source_id } => Ok(
                AstId { name: name.clone(), start: *start, source_id: *source_id },
            ),
            _ => Err(
                JError::MismatchedTypeErr("ast id".to_owned(), fmt_u64(self.get_ast_type() as u64)),
            ),
        }
    }

    /// Narrows the node to an operator.
    pub fn op(&self) -> (r: Result<AstOp, JError>)
        ensures
            r is Ok <==> self is Op,
            r matches Ok(a) ==> self matches AstNode::Op { name, start, source_id } && a.name
                == name && a.start == start && a.source_id == source_id,
            r matches Err(e) ==> e is MismatchedTypeErr,
    {
        match self {
            AstNode::Op { name, start, source_id } => Ok(
                AstOp { name: name.clone(), start: *start, source_id: *source_id },
            ),
            _ => Err(
                JError::MismatchedTypeErr("ast op".to_owned(), fmt_u64(self.get_ast_type() as u64)),
            ),
        }
    }

    /// Narrows the node, handing its parts out.
    pub fn fn_exp(self) -> (r: Result<AstFn, JError>)
        ensures
            r is Ok <==> self is Fn,
            r matches Ok(a) ==> (self matches AstNode::Fn { stmts, arg_names, fn_body, start, source_id } && a.stmts == stmts && a.arg_names == arg_names && a.fn_body == fn_body && a.start == start && a.source_id == source_id),
            r matches Err(e) ==> e is MismatchedTypeErr,
    {
        match self {
            AstNode::Fn { stmts, arg_names, fn_body, start, source_id } => Ok(AstFn { stmts, arg_names, fn_body, start, source_id }),
            _ => Err(
                JError::MismatchedTypeErr(
                    "ast fn".to_owned(),
                    fmt_u64(self.get_ast_type() as u64),
                ),
            ),
        }
    }

    /// Narrows the node, handing its parts out.
    pub fn unary_op(self) -> (r: Result<AstUnaryOp, JError>)
        ensures
            r is Ok <==> self is UnaryOp,
            r matches Ok(a) ==> (self matches AstNode::UnaryOp { op, exp } && a.op == *op && a.exp == *exp),
            r matches Err(e) ==> e is MismatchedTypeErr,
    {
        match self {
            AstNode::UnaryOp { op, exp } => Ok(AstUnaryOp { op: *op, exp: *exp }),
            _ => Err(
                JError::MismatchedTypeErr(
                    "ast unary op".to_owned(),
                    fmt_u64(self.get_ast_type() as u64),
                ),
            ),
        }
    }

    /// Narrows the node, handing its parts out.
    pub fn bin_op(self) -> (r: Result<AstBinOp, JError>)
        ensures
            r is Ok <==> self is BinOp,
            r matches Ok(a) ==> (self matches AstNode::BinOp { op, lhs, rhs } && a.op == *op && a.lhs == *lhs && a.rhs == *rhs),
            r matches Err(e) ==> e is MismatchedTypeErr,
    {
        match self {
            AstNode::BinOp { op, lhs, rhs } => Ok(AstBinOp { op: *op, lhs: *lhs, rhs: *rhs }),
            _ => Err(
                JError::MismatchedTypeErr(
                    "ast bin op".to_owned(),
                    fmt_u64(self.get_ast_type() as u64),
                ),
            ),
        }
    }

    /// Narrows the node, handing its parts out.
    pub fn assign(self) -> (r: Result<AstAssign, JError>)
        ensures
            r is Ok <==> self is Assign,
            r matches Ok(a) ==> (self matches AstNode::Assign { id, exp } && a.id == id && a.exp == *exp),
            r matches Err(e) ==> e is MismatchedTypeErr,
    {
        match self {
            AstNode::Assign { id, exp } => Ok(AstAssign { id, exp: *exp }),
            _ => Err(
                JError::MismatchedTypeErr(
                    "ast assign".to_owned(),
                    fmt_u64(self.get_ast_type() as u64),
                ),
            ),
        }
    }

    /// Narrows the node, handing its parts out.
    pub fn index_assign(self) -> (r: Result<AstIndexAssign, JError>)
        ensures
            r is Ok <==> self is IndexAssign,
            r matches Ok(a) ==> (self matches AstNode::IndexAssign { id, indices, exp } && a.id == id && a.indices == indices && a.exp == *exp),
            r matches Err(e) ==> e is MismatchedTypeErr,
    {
        match self {
            AstNode::IndexAssign { id, indices, exp } => Ok(AstIndexAssign { id, indices, exp: *exp }),
            _ => Err(
                JError::MismatchedTypeErr(
                    "ast index assign".to_owned(),
                    fmt_u64(self.get_ast_type() as u64),
                ),
            ),
        }
    }

    /// Narrows the node, handing its parts out.
    pub fn call(self) -> (r: Result<AstCall, JError>)
        ensures
            r is Ok <==> self is Call,
            r matches Ok(a) ==> (self matches AstNode::Call { f, args, start, source_id } && a.f == *f && a.args == args && a.start == start && a.source_id == source_id),
            r matches Err(e) ==> e is MismatchedTypeErr,
    {
        match self {
            AstNode::Call { f, args, start, source_id } => Ok(AstCall { f: *f, args, start, source_id }),
            _ => Err(
                JError::MismatchedTypeErr(
                    "ast call".to_owned(),
                    fmt_u64(self.get_ast_type() as u64),
                ),
            ),
        }
    }

    /// Narrows the node, handing its parts out.
    pub fn if_exp(self) -> (r: Result<AstIf, JError>)
        ensures
            r is Ok <==> self is If,
            r matches Ok(a) ==> (self matches AstNode::If { cond, stmts } && a.cond == *cond && a.stmts == stmts),
            r matches Err(e) ==> e is MismatchedTypeErr,
    {
        match self {
            AstNode::If { cond, stmts } => Ok(AstIf { cond: *cond, stmts }),
            _ => Err(
                JError::MismatchedTypeErr(
                    "ast if".to_owned(),
                    fmt_u64(self.get_ast_type() as u64),
                ),
            ),
        }
    }

    /// Narrows the node, handing its parts out.
    pub fn while_exp(self) -> (r: Result<AstWhile, JError>)
        ensures
            r is Ok <==> self is While,
            r matches Ok(a) ==> (self matches AstNode::While { cond, stmts } && a.cond == *cond && a.stmts == stmts),
            r matches Err(e) ==> e is MismatchedTypeErr,
    {
        match self {
            AstNode::While { cond, stmts } => Ok(AstWhile { cond: *cond, stmts }),
            _ => Err(
                JError::MismatchedTypeErr(
                    "ast while".to_owned(),
                    fmt_u64(self.get_ast_type() as u64),
                ),
            ),
        }
    }

    /// Narrows the node, handing its parts out.
    pub fn try_exp(self) -> (r: Result<AstTry, JError>)
        ensures
            r is Ok <==> self is Try,
            r matches Ok(a) ==> (self matches AstNode::Try { tries, catches } && a.tries == tries && a.catches == catches),
            r matches Err(e) ==> e is MismatchedTypeErr,
    {
        match self {
            AstNode::Try { tries, catches } => Ok(AstTry { tries, catches }),
            _ => Err(
                JError::MismatchedTypeErr(
                    "ast try".to_owned(),
                    fmt_u64(self.get_ast_type() as u64),
                ),
            ),
        }
    }

    /// Narrows the node, handing its parts out.
    pub fn sql(self) -> (r: Result<AstSql, JError>)
        ensures
            r is Ok <==> self is Sql,
            r matches Ok(a) ==> (self matches AstNode::Sql { op, from, filters, groups, ops, sorts, take, start, source_id } && a.op == op && a.from_df == *from && a.filters == filters && a.groups == groups && a.ops == ops && a.sorts == sorts && a.take == *take && a.start == start && a.source_id == source_id),
            r matches Err(e) ==> e is MismatchedTypeErr,
    {
        match self {
            AstNode::Sql { op, from, filters, groups, ops, sorts, take, start, source_id } => Ok(AstSql { op, from_df: *from, filters, groups, ops, sorts, take: *take, start, source_id }),
            _ => Err(
                JError::MismatchedTypeErr(
                    "ast sql".to_owned(),
                    fmt_u64(self.get_ast_type() as u64),
                ),
            ),
        }
    }


    /// Narrows the node, handing its parts out.
    pub fn return_exp(self) -> (r: Result<AstReturn, JError>)
        ensures
            r is Ok <==> self is Return,
            r matches Ok(a) ==> (self matches AstNode::Return(exp) && a.exp == *exp),
            r matches Err(e) ==> e is MismatchedTypeErr,
    {
        match self {
            AstNode::Return(exp) => Ok(AstReturn { exp: *exp }),
            _ => Err(
                JError::MismatchedTypeErr(
                    "ast return".to_owned(),
                    fmt_u64(self.get_ast_type() as u64),
                ),
            ),
        }
    }

    /// Narrows the node, handing its parts out.
    pub fn raise_exp(self) -> (r: Result<AstRaise, JError>)
        ensures
            r is Ok <==> self is Raise,
            r matches Ok(a) ==> (self matches AstNode::Raise(exp) && a.exp == *exp),
            r matches Err(e) ==> e is MismatchedTypeErr,
    {
        match self {
            AstNode::Raise(exp) => Ok(AstRaise { exp: *exp }),
            _ => Err(
                JError::MismatchedTypeErr(
                    "ast raise".to_owned(),
                    fmt_u64(self.get_ast_type() as u64),
                ),
            ),
        }
    }

    /// Narrows the node, handing its parts out.
    pub fn dataframe(self) -> (r: Result<AstDataFrame, JError>)
        ensures
            r is Ok <==> self is Dataframe,
            r matches Ok(a) ==> (self matches AstNode::Dataframe(exps) && a.exps == exps),
            r matches Err(e) ==> e is MismatchedTypeErr,
    {
        match self {
            AstNode::Dataframe(exps) => Ok(AstDataFrame { exps }),
            _ => Err(
                JError::MismatchedTypeErr(
                    "ast dataframe".to_owned(),
                    fmt_u64(self.get_ast_type() as u64),
                ),
            ),
        }
    }

    /// Narrows the node, handing its parts out.
    pub fn matrix(self) -> (r: Result<AstMatrix, JError>)
        ensures
            r is Ok <==> self is Matrix,
            r matches Ok(a) ==> (self matches AstNode::Matrix(exps) && a.exps == exps),
            r matches Err(e) ==> e is MismatchedTypeErr,
    {
        match self {
            AstNode::Matrix(exps) => Ok(AstMatrix { exps }),
            _ => Err(
                JError::MismatchedTypeErr(
                    "ast matrix".to_owned(),
                    fmt_u64(self.get_ast_type() as u64),
                ),
            ),
        }
    }

    /// Narrows the node, handing its parts out.
    pub fn dict(self) -> (r: Result<AstDict, JError>)
        ensures
            r is Ok <==> self is Dict,
            r matches Ok(a) ==> (self matches AstNode::Dict { keys, values } && a.keys == keys
                && a.values == values),
            r matches Err(e) ==> e is MismatchedTypeErr,
    {
        match self {
            AstNode::Dict { keys, values } => Ok(AstDict { keys, values }),
            _ => Err(
                JError::MismatchedTypeErr(
                    "ast dict".to_owned(),
                    fmt_u64(self.get_ast_type() as u64),
                ),
            ),
        }
    }

    /// Narrows the node, handing its parts out.
    pub fn list(self) -> (r: Result<AstList, JError>)
        ensures
            r is Ok <==> self is List,
            r matches Ok(a) ==> (self matches AstNode::List(exps) && a.exps == exps),
            r matches Err(e) ==> e is MismatchedTypeErr,
    {
        match self {
            AstNode::List(exps) => Ok(AstList { exps }),
            _ => Err(
                JError::MismatchedTypeErr(
                    "ast list".to_owned(),
                    fmt_u64(self.get_ast_type() as u64),
                ),
            ),
        }
    }

    /// Narrows the node, handing its parts out.
    pub fn series_exp(self) -> (r: Result<AstSeries, JError>)
        ensures
            r is Ok <==> self is Series,
            r matches Ok(a) ==> (self matches AstNode::Series { name, exp } && a.name == name
                && a.exp == *exp),
            r matches Err(e) ==> e is MismatchedTypeErr,
    {
        match self {
            AstNode::Series { name, exp } => Ok(AstSeries { name, exp: *exp }),
            _ => Err(
                JError::MismatchedTypeErr(
                    "ast series".to_owned(),
                    fmt_u64(self.get_ast_type() as u64),
                ),
            ),
        }
    }

    /// Narrows the node to the placeholder.
    pub fn skip(&self) -> (r: Result<AstSkip, JError>)
        ensures
            r is Ok <==> self is Skip,
            r matches Err(e) ==> e is MismatchedTypeErr,
    {
        match self {
            AstNode::Skip => Ok(AstSkip),
            _ => Err(
                JError::MismatchedTypeErr("skip".to_owned(), fmt_u64(self.get_ast_type() as u64)),
            ),
        }
    }
}

} // verus!
