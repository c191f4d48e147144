//! Tagged columns of homogeneous typed values: the data model every query
//! operator computes over. A column owns its buffer; two columns taking
//! part in one operation must share length.
use vstd::prelude::*;
use core::cmp::Ordering;
use crate::scalar::{Scalar, varchar_hash, signed_cmp_spec, field_order};

verus! {

/// The time unit of a timestamp column.
#[derive(PartialEq, Eq, Structural, Clone, Copy, Debug)]
pub enum PoSQLTimeUnit {
    Second,
    Millisecond,
    Microsecond,
    Nanosecond,
}

/// The type tag of a column or literal.
#[derive(PartialEq, Eq, Structural, Clone, Copy, Debug)]
pub enum ColumnType {
    Boolean,
    TinyInt,
    SmallInt,
    Int,
    BigInt,
    Int128,
    Decimal75 { precision: u8, scale: i8 },
    Scalar,
    VarChar,
    TimestampTZ { unit: PoSQLTimeUnit, timezone_offset: i32 },
}

impl ColumnType {
    /// The decimal scale of the type, where it has one.
    pub fn scale(&self) -> (r: Option<i8>)
        ensures
            r == self.spec_scale(),
    {
        match self {
            ColumnType::Decimal75 { precision: _, scale } => Some(*scale),
            ColumnType::TinyInt => Some(0),
            ColumnType::SmallInt => Some(0),
            ColumnType::Int => Some(0),
            ColumnType::BigInt => Some(0),
            ColumnType::Int128 => Some(0),
            ColumnType::Scalar => Some(0),
            _ => None,
        }
    }

    pub open spec fn spec_scale(self) -> Option<i8> {
        match self {
            ColumnType::Decimal75 { precision: _, scale } => Some(scale),
            ColumnType::TinyInt => Some(0i8),
            ColumnType::SmallInt => Some(0i8),
            ColumnType::Int => Some(0i8),
            ColumnType::BigInt => Some(0i8),
            ColumnType::Int128 => Some(0i8),
            ColumnType::Scalar => Some(0i8),
            _ => None,
        }
    }
}

/// A typed column of values.
#[derive(Clone, Debug)]
pub enum Column {
    Boolean(Vec<bool>),
    TinyInt(Vec<i8>),
    SmallInt(Vec<i16>),
    Int(Vec<i32>),
    BigInt(Vec<i64>),
    Int128(Vec<i128>),
    Decimal75(u8, i8, Vec<Scalar>),
    Scalar(Vec<Scalar>),
    VarChar(Vec<String>, Vec<Scalar>),
    TimestampTZ(PoSQLTimeUnit, i32, Vec<i64>),
}

/// The number of rows of a column.
pub open spec fn col_len(c: Column) -> nat {
    match c {
        Column::Boolean(v) => v@.len(),
        Column::TinyInt(v) => v@.len(),
        Column::SmallInt(v) => v@.len(),
        Column::Int(v) => v@.len(),
        Column::BigInt(v) => v@.len(),
        Column::Int128(v) => v@.len(),
        Column::Decimal75(_, _, v) => v@.len(),
        Column::Scalar(v) => v@.len(),
        Column::VarChar(s, _) => s@.len(),
        Column::TimestampTZ(_, _, v) => v@.len(),
    }
}

/// Well-formedness: scalar buffers hold canonical residues, and a varchar
/// column pairs each string with its scalar hash.
pub open spec fn col_wf(c: Column) -> bool {
    match c {
        Column::Decimal75(_, _, v) => forall|i: int|
            0 <= i < v@.len() ==> (#[trigger] v@[i]).wf(),
        Column::Scalar(v) => forall|i: int| 0 <= i < v@.len() ==> (#[trigger] v@[i]).wf(),
        Column::VarChar(s, h) => {
            &&& s@.len() == h@.len()
            &&& forall|i: int| 0 <= i < h@.len() ==> (#[trigger] h@[i])@ == varchar_hash(s@[i]@)
            &&& forall|i: int| 0 <= i < h@.len() ==> (#[trigger] h@[i]).wf()
        },
        _ => true,
    }
}

impl Column {
    /// The type tag of the column.
    pub fn column_type(&self) -> (r: ColumnType)
        ensures
            r == self.spec_column_type(),
    {
        match self {
            Column::Boolean(_) => ColumnType::Boolean,
            Column::TinyInt(_) => ColumnType::TinyInt,
            Column::SmallInt(_) => ColumnType::SmallInt,
            Column::Int(_) => ColumnType::Int,
            Column::BigInt(_) => ColumnType::BigInt,
            Column::Int128(_) => ColumnType::Int128,
            Column::Decimal75(precision, scale, _) => ColumnType::Decimal75 {
                precision: *precision,
                scale: *scale,
            },
            Column::Scalar(_) => ColumnType::Scalar,
            Column::VarChar(_, _) => ColumnType::VarChar,
            Column::TimestampTZ(unit, tz, _) => ColumnType::TimestampTZ {
                unit: *unit,
                timezone_offset: *tz,
            },
        }
    }

    pub open spec fn spec_column_type(self) -> ColumnType {
        match self {
            Column::Boolean(_) => ColumnType::Boolean,
            Column::TinyInt(_) => ColumnType::TinyInt,
            Column::SmallInt(_) => ColumnType::SmallInt,
            Column::Int(_) => ColumnType::Int,
            Column::BigInt(_) => ColumnType::BigInt,
            Column::Int128(_) => ColumnType::Int128,
            Column::Decimal75(precision, scale, _) => ColumnType::Decimal75 { precision, scale },
            Column::Scalar(_) => ColumnType::Scalar,
            Column::VarChar(_, _) => ColumnType::VarChar,
            Column::TimestampTZ(unit, tz, _) => ColumnType::TimestampTZ {
                unit,
                timezone_offset: tz,
            },
        }
    }

    /// The number of rows.
    pub fn len(&self) -> (r: usize)
        ensures
            r == col_len(*self),
    {
        match self {
            Column::Boolean(v) => v.len(),
            Column::TinyInt(v) => v.len(),
            Column::SmallInt(v) => v.len(),
            Column::Int(v) => v.len(),
            Column::BigInt(v) => v.len(),
            Column::Int128(v) => v.len(),
            Column::Decimal75(_, _, v) => v.len(),
            Column::Scalar(v) => v.len(),
            Column::VarChar(s, _) => s.len(),
            Column::TimestampTZ(_, _, v) => v.len(),
        }
    }
}

/// A literal value: a single typed value of indeterminate length.
#[derive(Clone, Debug)]
pub enum LiteralValue {
    Boolean(bool),
    TinyInt(i8),
    SmallInt(i16),
    Int(i32),
    BigInt(i64),
    Int128(i128),
    Scalar(Scalar),
    VarChar(String),
    TimestampTZ(PoSQLTimeUnit, i32, i64),
}

impl LiteralValue {
    /// The type tag of the literal.
    pub fn column_type(&self) -> (r: ColumnType)
        ensures
            r == self.spec_column_type(),
    {
        match self {
            LiteralValue::Boolean(_) => ColumnType::Boolean,
            LiteralValue::TinyInt(_) => ColumnType::TinyInt,
            LiteralValue::SmallInt(_) => ColumnType::SmallInt,
            LiteralValue::Int(_) => ColumnType::Int,
            LiteralValue::BigInt(_) => ColumnType::BigInt,
            LiteralValue::Int128(_) => ColumnType::Int128,
            LiteralValue::Scalar(_) => ColumnType::Scalar,
            LiteralValue::VarChar(_) => ColumnType::VarChar,
            LiteralValue::TimestampTZ(unit, tz, _) => ColumnType::TimestampTZ {
                unit: *unit,
                timezone_offset: *tz,
            },
        }
    }

    pub open spec fn spec_column_type(self) -> ColumnType {
        match self {
            LiteralValue::Boolean(_) => ColumnType::Boolean,
            LiteralValue::TinyInt(_) => ColumnType::TinyInt,
            LiteralValue::SmallInt(_) => ColumnType::SmallInt,
            LiteralValue::Int(_) => ColumnType::Int,
            LiteralValue::BigInt(_) => ColumnType::BigInt,
            LiteralValue::Int128(_) => ColumnType::Int128,
            LiteralValue::Scalar(_) => ColumnType::Scalar,
            LiteralValue::VarChar(_) => ColumnType::VarChar,
            LiteralValue::TimestampTZ(unit, tz, _) => ColumnType::TimestampTZ {
                unit,
                timezone_offset: tz,
            },
        }
    }

    /// Whether the literal's payload is well-formed.
    pub open spec fn wf(self) -> bool {
        match self {
            LiteralValue::Scalar(s) => s.wf(),
            _ => true,
        }
    }
}

/// Builds the length-`n` column that repeats the literal.
/// The column a literal expands to: length n, the literal's type, and
/// the literal's value in every cell; a varchar cell repeats the string
/// and carries its hash.
pub open spec fn is_literal_repeat(lit: LiteralValue, n: nat, r: Column) -> bool {
    &&& col_len(r) == n
    &&& col_wf(r)
    &&& r.spec_column_type() == lit.spec_column_type()
    &&& (lit is Boolean ==> r == Column::Boolean(r->Boolean_0) && r->Boolean_0@ == Seq::new(
        n,
        |i: int| lit->Boolean_0,
    ))
    &&& (lit is TinyInt ==> r == Column::TinyInt(r->TinyInt_0) && r->TinyInt_0@ == Seq::new(
        n,
        |i: int| lit->TinyInt_0,
    ))
    &&& (lit is SmallInt ==> r == Column::SmallInt(r->SmallInt_0) && r->SmallInt_0@ == Seq::new(
        n,
        |i: int| lit->SmallInt_0,
    ))
    &&& (lit is Int ==> r == Column::Int(r->Int_0) && r->Int_0@ == Seq::new(
        n,
        |i: int| lit->Int_0,
    ))
    &&& (lit is BigInt ==> r == Column::BigInt(r->BigInt_0) && r->BigInt_0@ == Seq::new(
        n,
        |i: int| lit->BigInt_0,
    ))
    &&& (lit is Int128 ==> r == Column::Int128(r->Int128_0) && r->Int128_0@ == Seq::new(
        n,
        |i: int| lit->Int128_0,
    ))
    &&& (lit is Scalar ==> r == Column::Scalar(r->Scalar_0) && r->Scalar_0@ == Seq::new(
        n,
        |i: int| lit->Scalar_0,
    ))
    &&& (lit is VarChar ==> r is VarChar && forall|i: int| 0 <= i < n ==> (
    #[trigger] r->VarChar_0@[i])@ == lit->VarChar_0@)
    &&& (lit is TimestampTZ ==> r is TimestampTZ && r->TimestampTZ_0 == lit->TimestampTZ_0
        && r->TimestampTZ_1 == lit->TimestampTZ_1 && r->TimestampTZ_2@ == Seq::new(
        n,
        |i: int| lit->TimestampTZ_2,
    ))
}

pub fn from_literal_with_length(lit: &LiteralValue, n: usize) -> (r: Column)
    requires
        lit.wf(),
    ensures
        is_literal_repeat(*lit, n as nat, r),
{
    let r = build_literal_column(lit, n);
    proof {
        if lit is Boolean {
            assert(r->Boolean_0@ =~= Seq::new(n as nat, |i: int| lit->Boolean_0));
        }
        if lit is TinyInt {
            assert(r->TinyInt_0@ =~= Seq::new(n as nat, |i: int| lit->TinyInt_0));
        }
        if lit is SmallInt {
            assert(r->SmallInt_0@ =~= Seq::new(n as nat, |i: int| lit->SmallInt_0));
        }
        if lit is Int {
            assert(r->Int_0@ =~= Seq::new(n as nat, |i: int| lit->Int_0));
        }
        if lit is BigInt {
            assert(r->BigInt_0@ =~= Seq::new(n as nat, |i: int| lit->BigInt_0));
        }
        if lit is Int128 {
            assert(r->Int128_0@ =~= Seq::new(n as nat, |i: int| lit->Int128_0));
        }
        if lit is Scalar {
            assert(r->Scalar_0@ =~= Seq::new(n as nat, |i: int| lit->Scalar_0));
        }
        if lit is TimestampTZ {
            assert(r->TimestampTZ_2@ =~= Seq::new(n as nat, |i: int| lit->TimestampTZ_2));
        }
    }
    r
}

fn build_literal_column(lit: &LiteralValue, n: usize) -> (r: Column)
    requires
        lit.wf(),
    ensures
        col_len(r) == n,
        col_wf(r),
        r.spec_column_type() == lit.spec_column_type(),
        lit is Boolean ==> r == Column::Boolean(r->Boolean_0) && forall|i: int| 0 <= i < n
            ==> r->Boolean_0@[i] == lit->Boolean_0,
        lit is TinyInt ==> r == Column::TinyInt(r->TinyInt_0) && forall|i: int| 0 <= i < n
            ==> r->TinyInt_0@[i] == lit->TinyInt_0,
        lit is SmallInt ==> r == Column::SmallInt(r->SmallInt_0) && forall|i: int| 0 <= i < n
            ==> r->SmallInt_0@[i] == lit->SmallInt_0,
        lit is Int ==> r == Column::Int(r->Int_0) && forall|i: int| 0 <= i < n ==> r->Int_0@[i]
            == lit->Int_0,
        lit is BigInt ==> r == Column::BigInt(r->BigInt_0) && forall|i: int| 0 <= i < n
            ==> r->BigInt_0@[i] == lit->BigInt_0,
        lit is Int128 ==> r == Column::Int128(r->Int128_0) && forall|i: int| 0 <= i < n
            ==> r->Int128_0@[i] == lit->Int128_0,
        lit is Scalar ==> r == Column::Scalar(r->Scalar_0) && forall|i: int| 0 <= i < n
            ==> r->Scalar_0@[i] == lit->Scalar_0,
        lit is VarChar ==> r is VarChar && forall|i: int| 0 <= i < n ==> (
        #[trigger] r->VarChar_0@[i])@ == lit->VarChar_0@,
        lit is TimestampTZ ==> r is TimestampTZ && r->TimestampTZ_0 == lit->TimestampTZ_0
            && r->TimestampTZ_1 == lit->TimestampTZ_1 && forall|i: int| 0 <= i < n
            ==> r->TimestampTZ_2@[i] == lit->TimestampTZ_2,
{
    match lit {
        LiteralValue::Boolean(x) => Column::Boolean(repeat_copy(*x, n)),
        LiteralValue::TinyInt(x) => Column::TinyInt(repeat_copy(*x, n)),
        LiteralValue::SmallInt(x) => Column::SmallInt(repeat_copy(*x, n)),
        LiteralValue::Int(x) => Column::Int(repeat_copy(*x, n)),
        LiteralValue::BigInt(x) => Column::BigInt(repeat_copy(*x, n)),
        LiteralValue::Int128(x) => Column::Int128(repeat_copy(*x, n)),
        LiteralValue::Scalar(x) => Column::Scalar(repeat_copy(*x, n)),
        LiteralValue::VarChar(s) => {
            let h = crate::scalar::hash_str(s.as_str());
            let mut strings: Vec<String> = Vec::new();
            let mut hashes: Vec<Scalar> = Vec::new();
            let mut i: usize = 0;
            while i < n
                invariant
                    0 <= i <= n,
                    strings@.len() == i,
                    hashes@.len() == i,
                    h@ == varchar_hash(s@),
                    h.wf(),
                    forall|j: int| 0 <= j < i ==> (#[trigger] strings@[j])@ == s@,
                    forall|j: int| 0 <= j < i ==> (#[trigger] hashes@[j])@ == varchar_hash(s@),
                    forall|j: int| 0 <= j < i ==> (#[trigger] hashes@[j]).wf(),
                decreases n - i,
            {
                strings.push(s.clone());
                hashes.push(h);
                i += 1;
            }
            Column::VarChar(strings, hashes)
        },
        LiteralValue::TimestampTZ(u, tz, x) => Column::TimestampTZ(*u, *tz, repeat_copy(*x, n)),
    }
}

/// A vector of `n` copies of `x`.
pub fn repeat_copy<T: Copy>(x: T, n: usize) -> (r: Vec<T>)
    ensures
        r@.len() == n,
        forall|i: int| 0 <= i < n ==> r@[i] == x,
{
    let mut out: Vec<T> = Vec::new();
    let mut i: usize = 0;
    while i < n
        invariant
            0 <= i <= n,
            out@.len() == i,
            forall|j: int| 0 <= j < i ==> out@[j] == x,
        decreases n - i,
    {
        out.push(x);
        i += 1;
    }
    out
}

/// Errors from operations on columnar values.
#[derive(Debug)]
pub enum ColumnarValueError {
    /// Attempt to convert a column to a different length than it has.
    ColumnLengthMismatch { columnar_value_length: usize, attempt_to_convert_length: usize },
}

/// The result of evaluating an expression: either a full column or a
/// single literal of indeterminate length.
#[derive(Clone, Debug)]
pub enum ColumnarValue {
    Column(Column),
    Literal(LiteralValue),
}

impl ColumnarValue {
    pub open spec fn wf(self) -> bool {
        match self {
            ColumnarValue::Column(c) => col_wf(c),
            ColumnarValue::Literal(l) => l.wf(),
        }
    }

    /// The column type this value carries.
    pub fn column_type(&self) -> (r: ColumnType)
        ensures
            r == match *self {
                ColumnarValue::Column(c) => c.spec_column_type(),
                ColumnarValue::Literal(l) => l.spec_column_type(),
            },
    {
        match self {
            ColumnarValue::Column(column) => column.column_type(),
            ColumnarValue::Literal(literal) => literal.column_type(),
        }
    }

    /// Converts to a column of exactly `num_rows` rows: a column is
    /// accepted exactly when its length already matches, a literal is
    /// repeated.
    pub fn into_column(self, num_rows: usize) -> (r: Result<Column, ColumnarValueError>)
        requires
            self.wf(),
        ensures
            match r {
                Ok(c) => {
                    &&& col_len(c) == num_rows
                    &&& col_wf(c)
                    &&& (self is Column ==> c == self->Column_0)
                    &&& (self is Literal ==> is_literal_repeat(
                        self->Literal_0,
                        num_rows as nat,
                        c,
                    ))
                },
                Err(e) => {
                    &&& self is Column
                    &&& col_len(self->Column_0) != num_rows
                    &&& e == (ColumnarValueError::ColumnLengthMismatch {
                        columnar_value_length: col_len(self->Column_0) as usize,
                        attempt_to_convert_length: num_rows,
                    })
                },
            },
    {
        match self {
            ColumnarValue::Column(column) => {
                if column.len() == num_rows {
                    Ok(column)
                } else {
                    Err(ColumnarValueError::ColumnLengthMismatch {
                        columnar_value_length: column.len(),
                        attempt_to_convert_length: num_rows,
                    })
                }
            },
            ColumnarValue::Literal(literal) => Ok(from_literal_with_length(&literal, num_rows)),
        }
    }
}

} // verus!
