//! The literal value model: scalar, temporal, series, matrix, list, dict,
//! dataframe and error values.

use vstd::prelude::*;

use crate::classify::SeriesKind;
use crate::dec::Dec;

verus! {

broadcast use vstd::std_specs::vec::group_vec_axioms, vstd::seq::group_seq_axioms;

/// The slots of a homogeneous series; numeric and boolean slots are nullable.
#[derive(Debug)]
pub enum SeriesData {
    Bool(Vec<Option<bool>>),
    U8(Vec<Option<u8>>),
    I8(Vec<Option<i8>>),
    U16(Vec<Option<u16>>),
    I16(Vec<Option<i16>>),
    U32(Vec<Option<u32>>),
    I32(Vec<Option<i32>>),
    U64(Vec<Option<u64>>),
    I64(Vec<Option<i64>>),
    F32(Vec<Option<Dec>>),
    F64(Vec<Option<Dec>>),
    Date(Vec<i32>),
    Time(Vec<i64>),
    Datetime(Vec<i64>),
    Timestamp(Vec<i64>),
    Duration(Vec<i64>),
    Symbol(Vec<String>),
    Str(Vec<String>),
    Null(usize),
}

/// A named, homogeneously-typed ordered sequence of scalar values.
#[derive(Debug)]
pub struct Series {
    pub name: String,
    pub data: SeriesData,
}

/// A two-dimensional array of exact decimals, held column by column.
#[derive(Debug)]
pub struct Matrix {
    pub n_rows: usize,
    pub columns: Vec<Vec<Dec>>,
}

/// An ordered mapping with unique string keys in insertion order.
#[derive(Debug)]
pub struct Dict {
    pub keys: Vec<String>,
    pub values: Vec<J>,
}

/// An ordered set of uniquely-named series of equal length.
#[derive(Debug)]
pub struct DataFrame {
    pub columns: Vec<Series>,
}

/// A literal value.
#[derive(Debug)]
pub enum J {
    Boolean(bool),
    I64(i64),
    Date(i32),
    Time(i64),
    Datetime(i64),
    Timestamp(i64),
    Duration(i64),
    F64(Dec),
    Str(String),
    Symbol(String),
    Null,
    Series(Series),
    Matrix(Matrix),
    MixedList(Vec<J>),
    Dict(Dict),
    DataFrame(DataFrame),
    ErrValue(String),
}

/// Tag of a literal value, as handed to an embedding host.
#[derive(Clone, Copy, PartialEq, Eq, Structural, Debug)]
pub enum JType {
    Null,
    Boolean,
    I64,
    Date,
    Time,
    Datetime,
    Timestamp,
    Duration,
    F64,
    Str,
    Symbol,
    Series,
    Matrix,
    List,
    Dict,
    DataFrame,
    Error,
}

pub open spec fn series_spec_len(d: SeriesData) -> nat {
    match d {
        SeriesData::Bool(v) => v@.len(),
        SeriesData::U8(v) => v@.len(),
        SeriesData::I8(v) => v@.len(),
        SeriesData::U16(v) => v@.len(),
        SeriesData::I16(v) => v@.len(),
        SeriesData::U32(v) => v@.len(),
        SeriesData::I32(v) => v@.len(),
        SeriesData::U64(v) => v@.len(),
        SeriesData::I64(v) => v@.len(),
        SeriesData::F32(v) => v@.len(),
        SeriesData::F64(v) => v@.len(),
        SeriesData::Date(v) => v@.len(),
        SeriesData::Time(v) => v@.len(),
        SeriesData::Datetime(v) => v@.len(),
        SeriesData::Timestamp(v) => v@.len(),
        SeriesData::Duration(v) => v@.len(),
        SeriesData::Symbol(v) => v@.len(),
        SeriesData::Str(v) => v@.len(),
        SeriesData::Null(n) => n as nat,
    }
}

pub open spec fn series_spec_kind(d: SeriesData) -> SeriesKind {
    match d {
        SeriesData::Bool(_) => SeriesKind::Bool,
        SeriesData::U8(_) => SeriesKind::U8,
        SeriesData::I8(_) => SeriesKind::I8,
        SeriesData::U16(_) => SeriesKind::U16,
        SeriesData::I16(_) => SeriesKind::I16,
        SeriesData::U32(_) => SeriesKind::U32,
        SeriesData::I32(_) => SeriesKind::I32,
        SeriesData::U64(_) => SeriesKind::U64,
        SeriesData::I64(_) => SeriesKind::I64,
        SeriesData::F32(_) => SeriesKind::F32,
        SeriesData::F64(_) => SeriesKind::F64,
        SeriesData::Date(_) => SeriesKind::Date,
        SeriesData::Time(_) => SeriesKind::Time,
        SeriesData::Datetime(_) => SeriesKind::Datetime,
        SeriesData::Timestamp(_) => SeriesKind::Timestamp,
        SeriesData::Duration(_) => SeriesKind::Duration,
        SeriesData::Symbol(_) => SeriesKind::Symbol,
        SeriesData::Str(_) => SeriesKind::Str,
        SeriesData::Null(_) => SeriesKind::Null,
    }
}

/// Numeric series kinds, as a matrix accepts them (booleans are separate).
pub open spec fn kind_is_numeric(k: SeriesKind) -> bool {
    match k {
        SeriesKind::U8 | SeriesKind::I8 | SeriesKind::U16 | SeriesKind::I16 | SeriesKind::U32
            | SeriesKind::I32 | SeriesKind::U64 | SeriesKind::I64 | SeriesKind::F32
            | SeriesKind::F64 => true,
        _ => false,
    }
}

impl Series {
    /// Number of slots.
    pub fn len(&self) -> (r: usize)
        ensures
            r == series_spec_len(self.data),
    {
        match &self.data {
            SeriesData::Bool(v) => v.len(),
            SeriesData::U8(v) => v.len(),
            SeriesData::I8(v) => v.len(),
            SeriesData::U16(v) => v.len(),
            SeriesData::I16(v) => v.len(),
            SeriesData::U32(v) => v.len(),
            SeriesData::I32(v) => v.len(),
            SeriesData::U64(v) => v.len(),
            SeriesData::I64(v) => v.len(),
            SeriesData::F32(v) => v.len(),
            SeriesData::F64(v) => v.len(),
            SeriesData::Date(v) => v.len(),
            SeriesData::Time(v) => v.len(),
            SeriesData::Datetime(v) => v.len(),
            SeriesData::Timestamp(v) => v.len(),
            SeriesData::Duration(v) => v.len(),
            SeriesData::Symbol(v) => v.len(),
            SeriesData::Str(v) => v.len(),
            SeriesData::Null(n) => *n,
        }
    }

    /// Element kind of the series.
    pub fn kind(&self) -> (r: SeriesKind)
        ensures
            r == series_spec_kind(self.data),
    {
        match &self.data {
            SeriesData::Bool(_) => SeriesKind::Bool,
            SeriesData::U8(_) => SeriesKind::U8,
            SeriesData::I8(_) => SeriesKind::I8,
            SeriesData::U16(_) => SeriesKind::U16,
            SeriesData::I16(_) => SeriesKind::I16,
            SeriesData::U32(_) => SeriesKind::U32,
            SeriesData::I32(_) => SeriesKind::I32,
            SeriesData::U64(_) => SeriesKind::U64,
            SeriesData::I64(_) => SeriesKind::I64,
            SeriesData::F32(_) => SeriesKind::F32,
            SeriesData::F64(_) => SeriesKind::F64,
            SeriesData::Date(_) => SeriesKind::Date,
            SeriesData::Time(_) => SeriesKind::Time,
            SeriesData::Datetime(_) => SeriesKind::Datetime,
            SeriesData::Timestamp(_) => SeriesKind::Timestamp,
            SeriesData::Duration(_) => SeriesKind::Duration,
            SeriesData::Symbol(_) => SeriesKind::Symbol,
            SeriesData::Str(_) => SeriesKind::Str,
            SeriesData::Null(_) => SeriesKind::Null,
        }
    }

    /// Whether a matrix accepts this series: numeric or boolean slots.
    pub fn is_numeric_or_bool(&self) -> (r: bool)
        ensures
            r == (kind_is_numeric(series_spec_kind(self.data)) || series_spec_kind(self.data)
                is Bool),
    {
        let k = self.kind();
        match k {
            SeriesKind::Bool | SeriesKind::U8 | SeriesKind::I8 | SeriesKind::U16 | SeriesKind::I16
                | SeriesKind::U32 | SeriesKind::I32 | SeriesKind::U64 | SeriesKind::I64
                | SeriesKind::F32 | SeriesKind::F64 => true,
            _ => false,
        }
    }

    /// Gives the series a new name, leaving the slots unchanged.
    pub fn rename(&mut self, name: String)
        ensures
            final(self).name == name,
            final(self).data == old(self).data,
    {
        self.name = name;
    }
}

/// Well-formedness of a dataframe: unique column names, equal lengths.
pub open spec fn df_wf(cols: Seq<Series>) -> bool {
    &&& (forall|i: int, j: int|
        0 <= i < j < cols.len() ==> #[trigger] cols[i].name@ != #[trigger] cols[j].name@)
    &&& (forall|i: int|
        0 <= i < cols.len() ==> series_spec_len(#[trigger] cols[i].data) == series_spec_len(
            cols[0].data,
        ))
}

/// Builds a dataframe, refusing duplicate column names and mismatched column
/// lengths.
pub fn df_new(columns: Vec<Series>) -> (r: Result<DataFrame, String>)
    ensures
        r is Ok <==> df_wf(columns@),
        r matches Ok(d) ==> d.columns == columns,
        r matches Err(m) ==> m@ == "duplicate column name"@ || m@ == "column lengths differ"@,
{
    let n = columns.len();
    let mut i: usize = 0;
    while i < n
        invariant
            i <= n,
            n == columns@.len(),
            forall|a: int, b: int|
                0 <= a < b < n && a < i ==> #[trigger] columns@[a].name@ != #[trigger] columns@[b].name@,
        decreases n - i,
    {
        let mut j: usize = i + 1;
        while j < n
            invariant
                i < j <= n,
                n == columns@.len(),
                forall|b: int| i < b < j ==> columns@[i as int].name@ != #[trigger] columns@[b].name@,
            decreases n - j,
        {
            if columns[i].name.eq(&columns[j].name) {
                return Err("duplicate column name".to_owned());
            }
            j = j + 1;
        }
        i = i + 1;
    }
    let mut k: usize = 1;
    while k < n
        invariant
            1 <= k <= n || (n == 0 && k == 1),
            n == columns@.len(),
            forall|a: int|
                0 <= a < k && a < n ==> series_spec_len(#[trigger] columns@[a].data)
                    == series_spec_len(columns@[0].data),
        decreases n - k,
    {
        if columns[k].len() != columns[0].len() {
            return Err("column lengths differ".to_owned());
        }
        k = k + 1;
    }
    Ok(DataFrame { columns })
}

impl J {
    /// Whether the scalar is of a numeric kind.
    pub fn is_numeric(&self) -> (r: bool)
        ensures
            r == (self is I64 || self is F64),
    {
        match self {
            J::I64(_) | J::F64(_) => true,
            _ => false,
        }
    }

    /// Whether the scalar is a boolean.
    pub fn is_bool(&self) -> (r: bool)
        ensures
            r == (self is Boolean),
    {
        match self {
            J::Boolean(_) => true,
            _ => false,
        }
    }

    /// The value's tag for an embedding host.
    pub fn j_type(&self) -> (r: JType)
        ensures
            r == j_type_of(*self),
    {
        match self {
            J::Null => JType::Null,
            J::Boolean(_) => JType::Boolean,
            J::I64(_) => JType::I64,
            J::Date(_) => JType::Date,
            J::Time(_) => JType::Time,
            J::Datetime(_) => JType::Datetime,
            J::Timestamp(_) => JType::Timestamp,
            J::Duration(_) => JType::Duration,
            J::F64(_) => JType::F64,
            J::Str(_) => JType::Str,
            J::Symbol(_) => JType::Symbol,
            J::Series(_) => JType::Series,
            J::Matrix(_) => JType::Matrix,
            J::MixedList(_) => JType::List,
            J::Dict(_) => JType::Dict,
            J::DataFrame(_) => JType::DataFrame,
            J::ErrValue(_) => JType::Error,
        }
    }

    /// The value's human-readable type name.
    pub fn get_type_name(&self) -> (r: String)
        ensures
            r@ == spec_type_name(*self),
    {
        match self {
            J::Boolean(_) => "bool".to_owned(),
            J::I64(_) => "i64".to_owned(),
            J::F64(_) => "f64".to_owned(),
            J::Date(_) => "date".to_owned(),
            J::Timestamp(_) => "timestamp".to_owned(),
            J::Datetime(_) => "datetime".to_owned(),
            J::Time(_) => "time".to_owned(),
            J::Duration(_) => "duration".to_owned(),
            J::Symbol(_) => "sym".to_owned(),
            J::Str(_) => "str".to_owned(),
            J::MixedList(_) => "list".to_owned(),
            J::Series(_) => "series".to_owned(),
            J::Matrix(_) => "matrix".to_owned(),
            J::Dict(_) => "dict".to_owned(),
            J::DataFrame(_) => "df".to_owned(),
            J::ErrValue(_) => "err".to_owned(),
            J::Null => "none".to_owned(),
        }
    }

    /// Promotes a scalar to a single-slot series without a name; collection
    /// values cannot be promoted.
    pub fn into_series(&self) -> (r: Result<Series, String>)
        ensures
            r is Ok <==> scalar_to_series_ok(*self),
            r matches Ok(s) ==> s.name@ == Seq::<char>::empty() && scalar_as_series(*self, s.data),
            r matches Err(m) ==> m@ == "cannot turn into a series"@,
    {
        match self {
            J::Boolean(b) => Ok(
                Series { name: String::new(), data: SeriesData::Bool(vec![Some(*b)]) },
            ),
            J::I64(v) => Ok(Series { name: String::new(), data: SeriesData::I64(vec![Some(*v)]) }),
            J::F64(d) => Ok(Series { name: String::new(), data: SeriesData::F64(vec![Some(*d)]) }),
            J::Date(v) => Ok(Series { name: String::new(), data: SeriesData::Date(vec![*v]) }),
            J::Timestamp(v) => Ok(
                Series { name: String::new(), data: SeriesData::Timestamp(vec![*v]) },
            ),
            J::Datetime(v) => Ok(
                Series { name: String::new(), data: SeriesData::Datetime(vec![*v]) },
            ),
            J::Time(v) => Ok(Series { name: String::new(), data: SeriesData::Time(vec![*v]) }),
            J::Duration(v) => Ok(
                Series { name: String::new(), data: SeriesData::Duration(vec![*v]) },
            ),
            J::Symbol(s) => Ok(
                Series { name: String::new(), data: SeriesData::Symbol(vec![s.clone()]) },
            ),
            J::Str(s) => Ok(Series { name: String::new(), data: SeriesData::Str(vec![s.clone()]) }),
            J::Null => Ok(Series { name: String::new(), data: SeriesData::Null(1) }),
            _ => Err("cannot turn into a series".to_owned()),
        }
    }

    /// Takes the series out of a series value.
    pub fn series(self) -> (r: Result<Series, String>)
        ensures
            r is Ok <==> self is Series,
            r matches Ok(s) ==> self == J::Series(s),
            r matches Err(m) ==> m@ == "not a series"@,
    {
        match self {
            J::Series(s) => Ok(s),
            _ => Err("not a series".to_owned()),
        }
    }
}

pub open spec fn j_type_of(j: J) -> JType {
    match j {
        J::Null => JType::Null,
        J::Boolean(_) => JType::Boolean,
        J::I64(_) => JType::I64,
        J::Date(_) => JType::Date,
        J::Time(_) => JType::Time,
        J::Datetime(_) => JType::Datetime,
        J::Timestamp(_) => JType::Timestamp,
        J::Duration(_) => JType::Duration,
        J::F64(_) => JType::F64,
        J::Str(_) => JType::Str,
        J::Symbol(_) => JType::Symbol,
        J::Series(_) => JType::Series,
        J::Matrix(_) => JType::Matrix,
        J::MixedList(_) => JType::List,
        J::Dict(_) => JType::Dict,
        J::DataFrame(_) => JType::DataFrame,
        J::ErrValue(_) => JType::Error,
    }
}

pub open spec fn spec_type_name(j: J) -> Seq<char> {
    match j {
        J::Boolean(_) => "bool"@,
        J::I64(_) => "i64"@,
        J::F64(_) => "f64"@,
        J::Date(_) => "date"@,
        J::Timestamp(_) => "timestamp"@,
        J::Datetime(_) => "datetime"@,
        J::Time(_) => "time"@,
        J::Duration(_) => "duration"@,
        J::Symbol(_) => "sym"@,
        J::Str(_) => "str"@,
        J::MixedList(_) => "list"@,
        J::Series(_) => "series"@,
        J::Matrix(_) => "matrix"@,
        J::Dict(_) => "dict"@,
        J::DataFrame(_) => "df"@,
        J::ErrValue(_) => "err"@,
        J::Null => "none"@,
    }
}

/// The scalars a series can be made of.
pub open spec fn scalar_to_series_ok(j: J) -> bool {
    match j {
        J::Boolean(_) | J::I64(_) | J::F64(_) | J::Date(_) | J::Timestamp(_) | J::Datetime(_)
            | J::Time(_) | J::Duration(_) | J::Symbol(_) | J::Str(_) | J::Null => true,
        _ => false,
    }
}

/// The single-slot series data that promoting a scalar yields.
pub open spec fn scalar_as_series(j: J, d: SeriesData) -> bool {
    match j {
        J::Boolean(b) => d matches SeriesData::Bool(v) && v@ =~= seq![Some(b)],
        J::I64(x) => d matches SeriesData::I64(v) && v@ =~= seq![Some(x)],
        J::F64(x) => d matches SeriesData::F64(v) && v@ =~= seq![Some(x)],
        J::Date(x) => d matches SeriesData::Date(v) && v@ =~= seq![x],
        J::Timestamp(x) => d matches SeriesData::Timestamp(v) && v@ =~= seq![x],
        J::Datetime(x) => d matches SeriesData::Datetime(v) && v@ =~= seq![x],
        J::Time(x) => d matches SeriesData::Time(v) && v@ =~= seq![x],
        J::Duration(x) => d matches SeriesData::Duration(v) && v@ =~= seq![x],
        J::Symbol(s) => d matches SeriesData::Symbol(v) && v@.len() == 1 && v@[0]@ == s@,
        J::Str(s) => d matches SeriesData::Str(v) && v@.len() == 1 && v@[0]@ == s@,
        J::Null => d matches SeriesData::Null(n) && n == 1,
        _ => false,
    }
}

} // verus!
