//! Typed queries: the comparison operators, the typed WHERE comparisons
//! evaluated directly over a row's bytes, and the resolver that binds a raw
//! syntax tree to a catalog.

use vstd::prelude::*;
use core::cmp::Ordering;
use vstd::std_specs::cmp::{PartialEqSpec, PartialOrdSpec};
use crate::parse::{
    ParsingError, RawColumnV, RawParse, RawQueryV, RawSelectQuery, RawSelectQueryColumn,
    RawWhereV, RawSelectQueryWhereExpressionOperator,
};
use crate::schema::{
    col_named, table_wf, tbl_named, ColumnDataType, GetTableDescriptor, TableColumn,
    TableColumnV, TableDescriptor, TableDescriptorV, prefix_to_nul,
};
use crate::numtext::{
    bool_text, match_bool_chars, parse_i32_chars, parse_i32_text, parse_i64_chars, parse_i64_text,
    parse_u32_chars, parse_u32_text, parse_u64_chars, parse_u64_text,
};
use crate::text::{bytes_eq, str_eq, str_to_chars, string_from_utf8};
use crate::uuidtext::{uuid_from_text, uuid_text_bytes};
use crate::bytes::{spec_i32_from_le_bytes, spec_i64_from_le_bytes};
use vstd::bytes::{spec_u32_from_le_bytes, spec_u64_from_le_bytes, u32_from_le_bytes, u64_from_le_bytes};
use vstd::utf8::{decode_utf8, valid_utf8};

verus! {

/// Errors raised while binding a raw query to a catalog.
#[derive(Debug, Clone, PartialEq, Eq)]
pub enum ResolveError {
    InvalidTable(String),
    MissingColumn(String),
    /// The column's type supports only equality, but an ordering operator
    /// was asked for.
    InvalidComparison(ColumnDataType, RawSelectQueryWhereExpressionOperator),
    UnparseableValue(String),
}

pub enum ResolveErrorV {
    InvalidTable(Seq<char>),
    MissingColumn(Seq<char>),
    InvalidComparison(ColumnDataType, RawSelectQueryWhereExpressionOperator),
    UnparseableValue(Seq<char>),
}

impl View for ResolveError {
    type V = ResolveErrorV;

    open spec fn view(&self) -> ResolveErrorV {
        match self {
            ResolveError::InvalidTable(s) => ResolveErrorV::InvalidTable(s@),
            ResolveError::MissingColumn(s) => ResolveErrorV::MissingColumn(s@),
            ResolveError::InvalidComparison(t, o) => ResolveErrorV::InvalidComparison(*t, *o),
            ResolveError::UnparseableValue(s) => ResolveErrorV::UnparseableValue(s@),
        }
    }
}

/// Any failure of the query pipeline: lexing and parsing, or resolution.
#[derive(Debug)]
pub enum QueryError {
    Parse(ParsingError),
    Resolve(ResolveError),
}

// ---------------------------------------------------------------------------
// operators
#[derive(Debug, Clone, Copy, PartialEq, Eq, Structural)]
pub enum PartialOrdOperator {
    GreaterThan,
    GreaterEqual,
    LessThan,
    LessEqual,
}

/// What an ordering operator means on a `partial_cmp` outcome.
pub open spec fn ord_op_holds(op: PartialOrdOperator, c: Option<Ordering>) -> bool {
    match op {
        PartialOrdOperator::GreaterThan => c == Some(Ordering::Greater),
        PartialOrdOperator::GreaterEqual => c matches Some(Ordering::Greater | Ordering::Equal),
        PartialOrdOperator::LessThan => c == Some(Ordering::Less),
        PartialOrdOperator::LessEqual => c matches Some(Ordering::Less | Ordering::Equal),
    }
}

impl PartialOrdOperator {
    /// Evaluate the operator through the type's own ordering.
    pub fn evaluate<T: PartialOrd>(&self, a: &T, b: &T) -> (r: bool)
        ensures
            T::obeys_partial_cmp_spec() ==> r == ord_op_holds(*self, a.partial_cmp_spec(b)),
    {
        match self {
            PartialOrdOperator::GreaterThan => *a > *b,
            PartialOrdOperator::GreaterEqual => *a >= *b,
            PartialOrdOperator::LessThan => *a < *b,
            PartialOrdOperator::LessEqual => *a <= *b,
        }
    }
}

#[derive(Debug, Clone, Copy, PartialEq, Eq, Structural)]
pub enum PartialEqOperator {
    Equal,
    NotEqual,
}

/// What an equality operator means.
pub open spec fn eq_op_holds<A>(op: PartialEqOperator, a: A, b: A) -> bool {
    match op {
        PartialEqOperator::Equal => a == b,
        PartialEqOperator::NotEqual => a != b,
    }
}

impl PartialEqOperator {
    /// Evaluate the operator through the type's own equality.
    pub fn evaluate<T: PartialEq>(&self, a: &T, b: &T) -> (r: bool)
        ensures
            T::obeys_eq_spec() ==> r == (match *self {
                PartialEqOperator::Equal => a.eq_spec(b),
                PartialEqOperator::NotEqual => !a.eq_spec(b),
            }),
    {
        match self {
            PartialEqOperator::Equal => *a == *b,
            PartialEqOperator::NotEqual => *a != *b,
        }
    }
}

/// An operator over types that have both equality and an order.
#[derive(Debug, Clone, Copy, PartialEq, Eq, Structural)]
pub enum EqOrdOperator {
    Eq(PartialEqOperator),
    Ord(PartialOrdOperator),
}

/// What a combined operator means on integer values.
pub open spec fn eqord_holds(op: EqOrdOperator, a: int, b: int) -> bool {
    match op {
        EqOrdOperator::Eq(PartialEqOperator::Equal) => a == b,
        EqOrdOperator::Eq(PartialEqOperator::NotEqual) => a != b,
        EqOrdOperator::Ord(PartialOrdOperator::GreaterThan) => a > b,
        EqOrdOperator::Ord(PartialOrdOperator::GreaterEqual) => a >= b,
        EqOrdOperator::Ord(PartialOrdOperator::LessThan) => a < b,
        EqOrdOperator::Ord(PartialOrdOperator::LessEqual) => a <= b,
    }
}

impl EqOrdOperator {
    /// Evaluate the operator through the type's own equality and ordering.
    pub fn evaluate<T: PartialEq + PartialOrd>(&self, a: &T, b: &T) -> (r: bool)
        ensures
            (match *self {
                EqOrdOperator::Eq(eqc) => T::obeys_eq_spec() ==> r == (match eqc {
                    PartialEqOperator::Equal => a.eq_spec(b),
                    PartialEqOperator::NotEqual => !a.eq_spec(b),
                }),
                EqOrdOperator::Ord(ordc) => T::obeys_partial_cmp_spec() ==> r == ord_op_holds(
                    ordc,
                    a.partial_cmp_spec(b),
                ),
            }),
    {
        match self {
            EqOrdOperator::Eq(eqc) => eqc.evaluate(a, b),
            EqOrdOperator::Ord(ordc) => ordc.evaluate(a, b),
        }
    }

    /// Every operator of the grammar, as a combined operator.
    pub fn of_raw(op: RawSelectQueryWhereExpressionOperator) -> (r: EqOrdOperator)
        ensures
            r == raw_op_to_eqord(op),
    {
        match op {
            RawSelectQueryWhereExpressionOperator::EqualEqual => EqOrdOperator::Eq(
                PartialEqOperator::Equal,
            ),
            RawSelectQueryWhereExpressionOperator::NotEqual => EqOrdOperator::Eq(
                PartialEqOperator::NotEqual,
            ),
            RawSelectQueryWhereExpressionOperator::GreaterThan => EqOrdOperator::Ord(
                PartialOrdOperator::GreaterThan,
            ),
            RawSelectQueryWhereExpressionOperator::GreaterEqual => EqOrdOperator::Ord(
                PartialOrdOperator::GreaterEqual,
            ),
            RawSelectQueryWhereExpressionOperator::LessThan => EqOrdOperator::Ord(
                PartialOrdOperator::LessThan,
            ),
            RawSelectQueryWhereExpressionOperator::LessEqual => EqOrdOperator::Ord(
                PartialOrdOperator::LessEqual,
            ),
        }
    }
}

pub open spec fn raw_op_to_eqord(op: RawSelectQueryWhereExpressionOperator) -> EqOrdOperator {
    match op {
        RawSelectQueryWhereExpressionOperator::EqualEqual => EqOrdOperator::Eq(
            PartialEqOperator::Equal,
        ),
        RawSelectQueryWhereExpressionOperator::NotEqual => EqOrdOperator::Eq(
            PartialEqOperator::NotEqual,
        ),
        RawSelectQueryWhereExpressionOperator::GreaterThan => EqOrdOperator::Ord(
            PartialOrdOperator::GreaterThan,
        ),
        RawSelectQueryWhereExpressionOperator::GreaterEqual => EqOrdOperator::Ord(
            PartialOrdOperator::GreaterEqual,
        ),
        RawSelectQueryWhereExpressionOperator::LessThan => EqOrdOperator::Ord(
            PartialOrdOperator::LessThan,
        ),
        RawSelectQueryWhereExpressionOperator::LessEqual => EqOrdOperator::Ord(
            PartialOrdOperator::LessEqual,
        ),
    }
}

/// Whether the grammar operator is plain equality or inequality.
pub open spec fn raw_op_to_eq(op: RawSelectQueryWhereExpressionOperator) -> Option<
    PartialEqOperator,
> {
    match op {
        RawSelectQueryWhereExpressionOperator::EqualEqual => Some(PartialEqOperator::Equal),
        RawSelectQueryWhereExpressionOperator::NotEqual => Some(PartialEqOperator::NotEqual),
        _ => None,
    }
}

// ---------------------------------------------------------------------------
// typed comparisons
/// A comparison over a type with equality and order.
#[derive(Debug)]
pub struct EqOrdComparison<T> where T: PartialEq + PartialOrd {
    pub operator: EqOrdOperator,
    pub value: T,
}

/// A comparison over a type with equality only.
#[derive(Debug)]
pub struct EqComparison<T> where T: PartialEq {
    pub operator: PartialEqOperator,
    pub value: T,
}

/// A WHERE comparison carrying its pre-parsed typed value. A `Byte` column
/// compares as NUL-trimmed text; a UUID column as its 16 raw bytes.
#[derive(Debug)]
pub enum WhereComparison {
    Int32(EqOrdComparison<i32>),
    UInt32(EqOrdComparison<u32>),
    Int64(EqOrdComparison<i64>),
    UInt64(EqOrdComparison<u64>),
    UuidV4(EqComparison<Vec<u8>>),
    String(EqComparison<String>),
    SerialId(EqOrdComparison<u64>),
    Boolean(EqComparison<bool>),
}

/// The mathematical form of a typed comparison.
pub enum WhereCmpV {
    Int32(EqOrdOperator, i32),
    UInt32(EqOrdOperator, u32),
    Int64(EqOrdOperator, i64),
    UInt64(EqOrdOperator, u64),
    UuidV4(PartialEqOperator, Seq<u8>),
    Str(PartialEqOperator, Seq<char>),
    SerialId(EqOrdOperator, u64),
    Boolean(PartialEqOperator, bool),
}

impl View for WhereComparison {
    type V = WhereCmpV;

    open spec fn view(&self) -> WhereCmpV {
        match self {
            WhereComparison::Int32(c) => WhereCmpV::Int32(c.operator, c.value),
            WhereComparison::UInt32(c) => WhereCmpV::UInt32(c.operator, c.value),
            WhereComparison::Int64(c) => WhereCmpV::Int64(c.operator, c.value),
            WhereComparison::UInt64(c) => WhereCmpV::UInt64(c.operator, c.value),
            WhereComparison::UuidV4(c) => WhereCmpV::UuidV4(c.operator, c.value@),
            WhereComparison::String(c) => WhereCmpV::Str(c.operator, c.value@),
            WhereComparison::SerialId(c) => WhereCmpV::SerialId(c.operator, c.value),
            WhereComparison::Boolean(c) => WhereCmpV::Boolean(c.operator, c.value),
        }
    }
}

/// How many window bytes a comparison needs.
pub open spec fn where_cmp_width(c: WhereCmpV) -> nat {
    match c {
        WhereCmpV::Int32(_, _) => 4,
        WhereCmpV::UInt32(_, _) => 4,
        WhereCmpV::Int64(_, _) => 8,
        WhereCmpV::UInt64(_, _) => 8,
        WhereCmpV::UuidV4(_, _) => 16,
        WhereCmpV::Str(_, _) => 0,
        WhereCmpV::SerialId(_, _) => 8,
        WhereCmpV::Boolean(_, _) => 1,
    }
}

/// Whether a comparison holds of a column window; a `Byte` window that is
/// not UTF-8 up to its first NUL is a decode failure.
pub open spec fn where_cmp_eval(c: WhereCmpV, b: Seq<u8>) -> Result<bool, ()> {
    match c {
        WhereCmpV::SerialId(op, v) => Ok(eqord_holds(op, spec_u64_from_le_bytes(b.take(8)) as int, v as int)),
        WhereCmpV::UInt64(op, v) => Ok(eqord_holds(op, spec_u64_from_le_bytes(b.take(8)) as int, v as int)),
        WhereCmpV::Int64(op, v) => Ok(eqord_holds(op, spec_i64_from_le_bytes(b.take(8)) as int, v as int)),
        WhereCmpV::UInt32(op, v) => Ok(eqord_holds(op, spec_u32_from_le_bytes(b.take(4)) as int, v as int)),
        WhereCmpV::Int32(op, v) => Ok(eqord_holds(op, spec_i32_from_le_bytes(b.take(4)) as int, v as int)),
        WhereCmpV::Boolean(op, v) => Ok(eq_op_holds(op, b[0] != 0, v)),
        WhereCmpV::UuidV4(op, v) => Ok(eq_op_holds(op, b.take(16), v)),
        WhereCmpV::Str(op, v) => {
            let w = prefix_to_nul(b);
            if valid_utf8(w) {
                Ok(eq_op_holds(op, decode_utf8(w), v))
            } else {
                Err(())
            }
        },
    }
}

impl WhereComparison {
    /// Whether this comparison holds of the column window at the start of
    /// `buf`.
    pub fn is_true(&self, buf: &[u8]) -> (r: Result<bool, crate::schema::CodecError>)
        requires
            buf@.len() >= where_cmp_width(self@),
        ensures
            match where_cmp_eval(self@, buf@) {
                Ok(b) => r matches Ok(rb) && rb == b,
                Err(_) => r == Err::<bool, crate::schema::CodecError>(
                    crate::schema::CodecError::InvalidUtf8,
                ),
            },
    {
        match self {
            WhereComparison::SerialId(cmp) => {
                let w: &[u8] = &buf[0..8];
                assert(w@ =~= buf@.take(8));
                let i = u64_from_le_bytes(w);
                Ok(eval_eqord_u64(cmp.operator, i, cmp.value))
            },
            WhereComparison::UInt64(cmp) => {
                let w: &[u8] = &buf[0..8];
                assert(w@ =~= buf@.take(8));
                let i = u64_from_le_bytes(w);
                Ok(eval_eqord_u64(cmp.operator, i, cmp.value))
            },
            WhereComparison::Int64(cmp) => {
                let w: &[u8] = &buf[0..8];
                assert(w@ =~= buf@.take(8));
                let i = u64_from_le_bytes(w) as i64;
                Ok(eval_eqord_i64(cmp.operator, i, cmp.value))
            },
            WhereComparison::UInt32(cmp) => {
                let w: &[u8] = &buf[0..4];
                assert(w@ =~= buf@.take(4));
                let i = u32_from_le_bytes(w);
                Ok(eval_eqord_u64(cmp.operator, i as u64, cmp.value as u64))
            },
            WhereComparison::Int32(cmp) => {
                let w: &[u8] = &buf[0..4];
                assert(w@ =~= buf@.take(4));
                let i = u32_from_le_bytes(w) as i32;
                Ok(eval_eqord_i64(cmp.operator, i as i64, cmp.value as i64))
            },
            WhereComparison::Boolean(cmp) => {
                let b = buf[0] != 0;
                Ok(
                    match cmp.operator {
                        PartialEqOperator::Equal => b == cmp.value,
                        PartialEqOperator::NotEqual => b != cmp.value,
                    },
                )
            },
            WhereComparison::UuidV4(cmp) => {
                let w: &[u8] = &buf[0..16];
                assert(w@ =~= buf@.take(16));
                let same = bytes_eq(w, cmp.value.as_slice());
                Ok(
                    match cmp.operator {
                        PartialEqOperator::Equal => same,
                        PartialEqOperator::NotEqual => !same,
                    },
                )
            },
            WhereComparison::String(cmp) => {
                let mut k: usize = 0;
                let n = buf.len();
                while k < n && buf[k] != 0
                    invariant
                        0 <= k <= n,
                        n == buf@.len(),
                        forall|j: int| 0 <= j < k ==> buf@[j] != 0,
                    decreases n - k,
                {
                    k = k + 1;
                }
                proof {
                    crate::schema::lemma_prefix_to_nul_window(buf@, k as int);
                }
                let w: &[u8] = &buf[0..k];
                assert(w@ =~= buf@.take(k as int));
                match string_from_utf8(w) {
                    None => Err(crate::schema::CodecError::InvalidUtf8),
                    Some(text) => {
                        let same = str_eq(text.as_str(), cmp.value.as_str());
                        Ok(
                            match cmp.operator {
                                PartialEqOperator::Equal => same,
                                PartialEqOperator::NotEqual => !same,
                            },
                        )
                    },
                }
            },
        }
    }
}

/// A combined operator on `u64` values.
fn eval_eqord_u64(op: EqOrdOperator, a: u64, b: u64) -> (r: bool)
    ensures
        r == eqord_holds(op, a as int, b as int),
{
    match op {
        EqOrdOperator::Eq(PartialEqOperator::Equal) => a == b,
        EqOrdOperator::Eq(PartialEqOperator::NotEqual) => a != b,
        EqOrdOperator::Ord(PartialOrdOperator::GreaterThan) => a > b,
        EqOrdOperator::Ord(PartialOrdOperator::GreaterEqual) => a >= b,
        EqOrdOperator::Ord(PartialOrdOperator::LessThan) => a < b,
        EqOrdOperator::Ord(PartialOrdOperator::LessEqual) => a <= b,
    }
}

/// A combined operator on `i64` values.
fn eval_eqord_i64(op: EqOrdOperator, a: i64, b: i64) -> (r: bool)
    ensures
        r == eqord_holds(op, a as int, b as int),
{
    match op {
        EqOrdOperator::Eq(PartialEqOperator::Equal) => a == b,
        EqOrdOperator::Eq(PartialEqOperator::NotEqual) => a != b,
        EqOrdOperator::Ord(PartialOrdOperator::GreaterThan) => a > b,
        EqOrdOperator::Ord(PartialOrdOperator::GreaterEqual) => a >= b,
        EqOrdOperator::Ord(PartialOrdOperator::LessThan) => a < b,
        EqOrdOperator::Ord(PartialOrdOperator::LessEqual) => a <= b,
    }
}

// ---------------------------------------------------------------------------
// the typed query and its resolution
/// One resolved WHERE condition.
#[derive(Debug)]
pub struct WhereCondition {
    pub column: TableColumn,
    pub comparison: WhereComparison,
}

pub struct WhereConditionV {
    pub column: TableColumnV,
    pub comparison: WhereCmpV,
}

impl View for WhereCondition {
    type V = WhereConditionV;

    open spec fn view(&self) -> WhereConditionV {
        WhereConditionV { column: self.column@, comparison: self.comparison@ }
    }
}

/// A conjunctive WHERE predicate.
#[derive(Debug)]
pub struct WherePredicate {
    pub conditions: Vec<WhereCondition>,
}

/// A SELECT query bound to a schema: the table, the projected columns, and
/// an optional predicate.
#[derive(Debug)]
pub struct SelectQuery {
    pub table: TableDescriptor,
    pub columns: Vec<TableColumn>,
    pub where_predicate: Option<WherePredicate>,
}

pub struct SelectQueryV {
    pub table: TableDescriptorV,
    pub columns: Seq<TableColumnV>,
    pub where_predicate: Option<Seq<WhereConditionV>>,
}

impl View for SelectQuery {
    type V = SelectQueryV;

    open spec fn view(&self) -> SelectQueryV {
        SelectQueryV {
            table: self.table@,
            columns: self.columns@.map_values(|c: TableColumn| c@),
            where_predicate: match self.where_predicate {
                Some(ref p) => Some(p.conditions@.map_values(|c: WhereCondition| c@)),
                None => None,
            },
        }
    }
}

/// The typed comparison a WHERE clause resolves to on a column of type `t`,
/// or the error. The textual value is parsed first; ordering operators are
/// then rejected on equality-only types.
pub open spec fn sp_parse_where_comparison(
    t: ColumnDataType,
    op: RawSelectQueryWhereExpressionOperator,
    value: Seq<char>,
) -> Result<WhereCmpV, ResolveErrorV> {
    match t {
        ColumnDataType::Boolean => {
            if value == bool_text(true) || value == bool_text(false) {
                match raw_op_to_eq(op) {
                    Some(eop) => Ok(WhereCmpV::Boolean(eop, value == bool_text(true))),
                    None => Err(ResolveErrorV::InvalidComparison(t, op)),
                }
            } else {
                Err(ResolveErrorV::UnparseableValue(value))
            }
        },
        ColumnDataType::SerialId => match parse_u64_text(value) {
            Some(v) => Ok(WhereCmpV::SerialId(raw_op_to_eqord(op), v)),
            None => Err(ResolveErrorV::UnparseableValue(value)),
        },
        ColumnDataType::UInt64 => match parse_u64_text(value) {
            Some(v) => Ok(WhereCmpV::UInt64(raw_op_to_eqord(op), v)),
            None => Err(ResolveErrorV::UnparseableValue(value)),
        },
        ColumnDataType::Int64 => match parse_i64_text(value) {
            Some(v) => Ok(WhereCmpV::Int64(raw_op_to_eqord(op), v)),
            None => Err(ResolveErrorV::UnparseableValue(value)),
        },
        ColumnDataType::UInt32 => match parse_u32_text(value) {
            Some(v) => Ok(WhereCmpV::UInt32(raw_op_to_eqord(op), v)),
            None => Err(ResolveErrorV::UnparseableValue(value)),
        },
        ColumnDataType::Int32 => match parse_i32_text(value) {
            Some(v) => Ok(WhereCmpV::Int32(raw_op_to_eqord(op), v)),
            None => Err(ResolveErrorV::UnparseableValue(value)),
        },
        ColumnDataType::UuidV4 => match uuid_text_bytes(value) {
            Some(b) => if b.len() == 16 {
                match raw_op_to_eq(op) {
                    Some(eop) => Ok(WhereCmpV::UuidV4(eop, b)),
                    None => Err(ResolveErrorV::InvalidComparison(t, op)),
                }
            } else {
                Err(ResolveErrorV::UnparseableValue(value))
            },
            None => Err(ResolveErrorV::UnparseableValue(value)),
        },
        ColumnDataType::Byte(_) => match raw_op_to_eq(op) {
            Some(eop) => Ok(WhereCmpV::Str(eop, value)),
            None => Err(ResolveErrorV::InvalidComparison(t, op)),
        },
    }
}

/// The first `k` projected columns resolved against the table.
pub open spec fn sp_resolve_cols_up_to(
    t: TableDescriptorV,
    cols: Seq<RawColumnV>,
    k: int,
) -> Result<Seq<TableColumnV>, ResolveErrorV>
    decreases k,
{
    if k <= 0 {
        Ok(Seq::empty())
    } else {
        match sp_resolve_cols_up_to(t, cols, k - 1) {
            Err(e) => Err(e),
            Ok(pre) => match col_named(t.columns, cols[k - 1].column.column_name) {
                None => Err(ResolveErrorV::MissingColumn(cols[k - 1].column.column_name)),
                Some(ci) => Ok(pre.push(t.columns[ci])),
            },
        }
    }
}

/// Binding a raw query to a catalog: look the table up, resolve every
/// projected column, and typecheck the WHERE comparison against its
/// column's declared type.
pub open spec fn sp_resolve(raw: RawQueryV, ts: Seq<TableDescriptorV>) -> Result<
    SelectQueryV,
    ResolveErrorV,
> {
    match tbl_named(ts, raw.table_name) {
        None => Err(ResolveErrorV::InvalidTable(raw.table_name)),
        Some(ti) => {
            let t = ts[ti];
            match sp_resolve_cols_up_to(t, raw.columns, raw.columns.len() as int) {
                Err(e) => Err(e),
                Ok(cols) => match raw.where_expression {
                    None => Ok(SelectQueryV { table: t, columns: cols, where_predicate: None }),
                    Some(w) => match w {
                        RawWhereV::Single(cmp) => match col_named(
                            t.columns,
                            cmp.column.column_name,
                        ) {
                            None => Err(ResolveErrorV::MissingColumn(cmp.column.column_name)),
                            Some(ci) => match sp_parse_where_comparison(
                                t.columns[ci].datatype,
                                cmp.op,
                                cmp.value,
                            ) {
                                Err(e) => Err(e),
                                Ok(c) => Ok(
                                    SelectQueryV {
                                        table: t,
                                        columns: cols,
                                        where_predicate: Some(
                                            seq![
                                                WhereConditionV {
                                                    column: t.columns[ci],
                                                    comparison: c,
                                                },
                                            ],
                                        ),
                                    },
                                ),
                            },
                        },
                        _ => Err(ResolveErrorV::InvalidComparison(
                            ColumnDataType::Boolean,
                            RawSelectQueryWhereExpressionOperator::EqualEqual,
                        )),
                    },
                },
            }
        },
    }
}

/// A resolved query is consistent with its table: every projected column
/// and every condition column is one of the table's columns, and each
/// comparison matches its column's declared type width.
pub open spec fn select_query_wf(q: SelectQueryV) -> bool {
    &&& table_wf(q.table)
    &&& forall|i: int|
        0 <= i < q.columns.len() ==> exists|j: int|
            0 <= j < q.table.columns.len() && (#[trigger] q.columns[i]) == q.table.columns[j]
    &&& match q.where_predicate {
        Some(conds) => forall|i: int|
            0 <= i < conds.len() ==> exists|j: int|
                0 <= j < q.table.columns.len() && (#[trigger] conds[i]).column
                    == q.table.columns[j] && where_cmp_width(conds[i].comparison)
                    <= q.table.columns[j].datatype.spec_size(),
        None => true,
    }
}

/// Resolution law: a resolved query only ever references columns of the
/// table it names, and its comparisons fit their columns' windows.
pub proof fn lemma_resolution_binds_columns(raw: RawQueryV, ts: Seq<TableDescriptorV>)
    requires
        forall|k: int| 0 <= k < ts.len() ==> table_wf(#[trigger] ts[k]),
    ensures
        sp_resolve(raw, ts) matches Ok(q) ==> {
            &&& tbl_named(ts, raw.table_name) matches Some(ti) && q.table == ts[ti]
            &&& select_query_wf(q)
        },
{
    crate::schema::lemma_tbl_named_range(ts, raw.table_name);
    match tbl_named(ts, raw.table_name) {
        None => {
        },
        Some(ti) => {
            let t = ts[ti];
            lemma_resolve_cols_membership(t, raw.columns, raw.columns.len() as int);
            match sp_resolve(raw, ts) {
                Ok(q) => {
                    match q.where_predicate {
                        Some(conds) => {
                            assert(conds.len() == 1);
                            let cmp = raw.where_expression->Some_0->Single_0;
                            crate::schema::lemma_col_named_range(t.columns, cmp.column.column_name);
                            let ci = col_named(t.columns, cmp.column.column_name)->Some_0;
                            lemma_where_cmp_fits(
                                t.columns[ci].datatype,
                                cmp.op,
                                cmp.value,
                            );
                            assert((conds[0]).column == t.columns[ci]);
                        },
                        None => {
                        },
                    }
                },
                Err(_) => {
                },
            }
        },
    }
}

/// A typed comparison never needs more bytes than its column's width.
proof fn lemma_where_cmp_fits(
    t: ColumnDataType,
    op: RawSelectQueryWhereExpressionOperator,
    value: Seq<char>,
)
    ensures
        sp_parse_where_comparison(t, op, value) matches Ok(c) ==> where_cmp_width(c)
            <= t.spec_size(),
{
}

/// Once one projected column is missing, the whole resolution fails with
/// that column's name.
proof fn lemma_resolve_cols_fail(t: TableDescriptorV, cols: Seq<RawColumnV>, i: int, k: int)
    requires
        0 <= i < k <= cols.len(),
        sp_resolve_cols_up_to(t, cols, i) is Ok,
        col_named(t.columns, cols[i].column.column_name) is None,
    ensures
        sp_resolve_cols_up_to(t, cols, k) == Err::<Seq<TableColumnV>, ResolveErrorV>(
            ResolveErrorV::MissingColumn(cols[i].column.column_name),
        ),
    decreases k,
{
    if k > i + 1 {
        lemma_resolve_cols_fail(t, cols, i, k - 1);
    }
}

proof fn lemma_resolve_cols_membership(t: TableDescriptorV, cols: Seq<RawColumnV>, k: int)
    ensures
        sp_resolve_cols_up_to(t, cols, k) matches Ok(rs) ==> rs.len() == (if k >= 0 {
            k
        } else {
            0
        }) && forall|i: int|
            0 <= i < rs.len() ==> exists|j: int|
                0 <= j < t.columns.len() && (#[trigger] rs[i]) == t.columns[j],
    decreases k,
{
    if k > 0 {
        lemma_resolve_cols_membership(t, cols, k - 1);
        match sp_resolve_cols_up_to(t, cols, k - 1) {
            Ok(pre) => {
                match col_named(t.columns, cols[k - 1].column.column_name) {
                    Some(ci) => {
                        crate::schema::lemma_col_named_range(
                            t.columns,
                            cols[k - 1].column.column_name,
                        );
                        let rs = pre.push(t.columns[ci]);
                        assert forall|i: int| 0 <= i < rs.len() implies exists|j: int|
                            0 <= j < t.columns.len() && (#[trigger] rs[i]) == t.columns[j] by {
                            if i < pre.len() {
                                assert(rs[i] == pre[i]);
                            } else {
                                assert(rs[i] == t.columns[ci]);
                            }
                        }
                    },
                    None => {
                    },
                }
            },
            Err(_) => {
            },
        }
    }
}

impl SelectQuery {
    /// Parse a query text and bind it against the catalog: lexer, parser and
    /// resolver composed. A well-formed catalog yields a well-formed query
    /// over the named table.
    pub fn parse_query_string<D: GetTableDescriptor>(query: &str, db_descriptor: &D) -> (r:
        Result<SelectQuery, QueryError>)
        ensures
            match crate::parse::sp_parse_string(query@) {
                Err(pe) => r matches Err(e) && (e matches QueryError::Parse(p) && p@ == pe),
                Ok(raw) => match sp_resolve(raw, db_descriptor.catalog()) {
                    Err(re) => r matches Err(e) && (e matches QueryError::Resolve(rr) && rr@
                        == re),
                    Ok(q) => r matches Ok(sq) && sq@ == q,
                },
            },
            (forall|k: int|
                0 <= k < db_descriptor.catalog().len() ==> table_wf(
                    #[trigger] db_descriptor.catalog()[k],
                )) ==> (r matches Ok(sq) ==> (select_query_wf(sq@) && (tbl_named(
                db_descriptor.catalog(),
                sq@.table.table_name,
            ) matches Some(ti) && sq@.table == db_descriptor.catalog()[ti]))),
    {
        let raw = match RawParse::parse_string(query) {
            Err(e) => {
                return Err(QueryError::Parse(e));
            },
            Ok(rq) => rq,
        };
        let ghost ts = db_descriptor.catalog();
        proof {
            if forall|k: int| 0 <= k < ts.len() ==> table_wf(#[trigger] ts[k]) {
                lemma_resolution_binds_columns(raw@, ts);
            }
        }
        let table = match db_descriptor.table_with_name(raw.table_name.as_str()) {
            None => {
                return Err(QueryError::Resolve(ResolveError::InvalidTable(raw.table_name)));
            },
            Some(t) => t,
        };
        let ghost t = table@;
        let mut columns: Vec<TableColumn> = Vec::new();
        let n = raw.columns.len();
        let mut i: usize = 0;
        proof {
            assert(columns@.map_values(|c: TableColumn| c@) =~= Seq::<TableColumnV>::empty());
        }
        while i < n
            invariant
                0 <= i <= n,
                n == raw@.columns.len(),
                raw@.columns == raw.columns@.map_values(|c: RawSelectQueryColumn| c@),
                t == table@,
                ts == db_descriptor.catalog(),
                crate::parse::sp_parse_string(query@) == Ok::<RawQueryV, crate::parse::ParsingErrorV>(raw@),
                tbl_named(ts, raw@.table_name) matches Some(ti) && t == ts[ti],
                sp_resolve_cols_up_to(t, raw@.columns, i as int) == Ok::<
                    Seq<TableColumnV>,
                    ResolveErrorV,
                >(columns@.map_values(|c: TableColumn| c@)),
            decreases n - i,
        {
            proof {
                assert(raw@.columns[i as int] == raw.columns@[i as int]@);
            }
            let cname = &raw.columns[i].column.column_name;
            match table.column_for_name(cname.as_str()) {
                None => {
                    proof {
                        lemma_resolve_cols_fail(t, raw@.columns, i as int, n as int);
                    }
                    return Err(QueryError::Resolve(ResolveError::MissingColumn(cname.clone())));
                },
                Some(c) => {
                    let ghost before = columns@;
                    columns.push(c.clone_column());
                    proof {
                        assert(columns@.map_values(|c: TableColumn| c@) =~= before.map_values(
                            |c: TableColumn| c@,
                        ).push(columns@[before.len() as int]@));
                    }
                },
            }
            i = i + 1;
        }
        let where_predicate = match &raw.where_expression {
            None => None,
            Some(crate::parse::RawSelectQueryWhereExpression::Single(cmp)) => {
                let col = match table.column_for_name(cmp.column.column_name.as_str()) {
                    None => {
                        return Err(
                            QueryError::Resolve(
                                ResolveError::MissingColumn(cmp.column.column_name.clone()),
                            ),
                        );
                    },
                    Some(c) => c,
                };
                let comparison = match parse_where_comparison(
                    &col.datatype,
                    cmp.op,
                    cmp.value.as_str(),
                ) {
                    Err(e) => {
                        return Err(QueryError::Resolve(e));
                    },
                    Ok(c) => c,
                };
                Some(
                    WherePredicate {
                        conditions: vec![
                            WhereCondition { column: col.clone_column(), comparison },
                        ],
                    },
                )
            },
            Some(_) => {
                return Err(
                    QueryError::Resolve(
                        ResolveError::InvalidComparison(
                            ColumnDataType::Boolean,
                            RawSelectQueryWhereExpressionOperator::EqualEqual,
                        ),
                    ),
                );
            },
        };
        let q = SelectQuery { table: table.clone_descriptor(), columns, where_predicate };
        proof {
            crate::schema::lemma_tbl_named_range(ts, raw@.table_name);
            if q@.where_predicate is Some {
                assert(q@.where_predicate->Some_0 =~= sp_resolve(
                    raw@,
                    ts,
                )->Ok_0.where_predicate->Some_0);
            }
        }
        Ok(q)
    }
}

/// The typed comparison for a column of type `t`: parse the value, then
/// accept only the operators the type supports.
fn parse_where_comparison(
    t: &ColumnDataType,
    op: RawSelectQueryWhereExpressionOperator,
    value: &str,
) -> (r: Result<WhereComparison, ResolveError>)
    ensures
        match sp_parse_where_comparison(*t, op, value@) {
            Ok(c) => r matches Ok(out) && out@ == c,
            Err(e) => r matches Err(re) && re@ == e,
        },
{
    match t {
        ColumnDataType::Boolean => {
            let cs = str_to_chars(value);
            match match_bool_chars(cs.as_slice()) {
                None => Err(ResolveError::UnparseableValue(value.to_owned())),
                Some(v) => match eq_op_of(op) {
                    Some(eop) => Ok(
                        WhereComparison::Boolean(EqComparison { operator: eop, value: v }),
                    ),
                    None => Err(ResolveError::InvalidComparison(*t, op)),
                },
            }
        },
        ColumnDataType::SerialId => {
            let cs = str_to_chars(value);
            match parse_u64_chars(cs.as_slice()) {
                None => Err(ResolveError::UnparseableValue(value.to_owned())),
                Some(v) => Ok(
                    WhereComparison::SerialId(
                        EqOrdComparison { operator: EqOrdOperator::of_raw(op), value: v },
                    ),
                ),
            }
        },
        ColumnDataType::UInt64 => {
            let cs = str_to_chars(value);
            match parse_u64_chars(cs.as_slice()) {
                None => Err(ResolveError::UnparseableValue(value.to_owned())),
                Some(v) => Ok(
                    WhereComparison::UInt64(
                        EqOrdComparison { operator: EqOrdOperator::of_raw(op), value: v },
                    ),
                ),
            }
        },
        ColumnDataType::Int64 => {
            let cs = str_to_chars(value);
            match parse_i64_chars(cs.as_slice()) {
                None => Err(ResolveError::UnparseableValue(value.to_owned())),
                Some(v) => Ok(
                    WhereComparison::Int64(
                        EqOrdComparison { operator: EqOrdOperator::of_raw(op), value: v },
                    ),
                ),
            }
        },
        ColumnDataType::UInt32 => {
            let cs = str_to_chars(value);
            match parse_u32_chars(cs.as_slice()) {
                None => Err(ResolveError::UnparseableValue(value.to_owned())),
                Some(v) => Ok(
                    WhereComparison::UInt32(
                        EqOrdComparison { operator: EqOrdOperator::of_raw(op), value: v },
                    ),
                ),
            }
        },
        ColumnDataType::Int32 => {
            let cs = str_to_chars(value);
            match parse_i32_chars(cs.as_slice()) {
                None => Err(ResolveError::UnparseableValue(value.to_owned())),
                Some(v) => Ok(
                    WhereComparison::Int32(
                        EqOrdComparison { operator: EqOrdOperator::of_raw(op), value: v },
                    ),
                ),
            }
        },
        ColumnDataType::UuidV4 => {
            match uuid_from_text(value) {
                None => Err(ResolveError::UnparseableValue(value.to_owned())),
                Some(b) => match eq_op_of(op) {
                    Some(eop) => Ok(
                        WhereComparison::UuidV4(EqComparison { operator: eop, value: b }),
                    ),
                    None => Err(ResolveError::InvalidComparison(*t, op)),
                },
            }
        },
        ColumnDataType::Byte(_) => match eq_op_of(op) {
            Some(eop) => Ok(
                WhereComparison::String(
                    EqComparison { operator: eop, value: value.to_owned() },
                ),
            ),
            None => Err(ResolveError::InvalidComparison(*t, op)),
        },
    }
}

fn eq_op_of(op: RawSelectQueryWhereExpressionOperator) -> (r: Option<PartialEqOperator>)
    ensures
        r == raw_op_to_eq(op),
{
    match op {
        RawSelectQueryWhereExpressionOperator::EqualEqual => Some(PartialEqOperator::Equal),
        RawSelectQueryWhereExpressionOperator::NotEqual => Some(PartialEqOperator::NotEqual),
        _ => None,
    }
}

} // verus!
