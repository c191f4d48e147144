//! Lexicographic row comparison across columns: the ordering that group-by
//! uses to sort and collapse rows. Comparison is column-wise with
//! tie-breaking by subsequent columns; varchar cells compare by their
//! characters, not by their scalar hashes; scalar cells compare as signed
//! field elements.
use vstd::prelude::*;
use core::cmp::Ordering;
use crate::scalar::{Scalar, signed_cmp_spec};
use crate::column::{Column, col_len, col_wf};

verus! {

/// An owned column: the non-arena counterpart of `Column`, without
/// precomputed varchar hashes.
#[derive(Clone, Debug)]
pub enum OwnedColumn {
    Boolean(Vec<bool>),
    TinyInt(Vec<i8>),
    SmallInt(Vec<i16>),
    Int(Vec<i32>),
    BigInt(Vec<i64>),
    Int128(Vec<i128>),
    Decimal75(u8, i8, Vec<Scalar>),
    Scalar(Vec<Scalar>),
    VarChar(Vec<String>),
    TimestampTZ(crate::column::PoSQLTimeUnit, i32, Vec<i64>),
}

/// The number of rows of an owned column.
pub open spec fn owned_col_len(c: OwnedColumn) -> nat {
    match c {
        OwnedColumn::Boolean(v) => v@.len(),
        OwnedColumn::TinyInt(v) => v@.len(),
        OwnedColumn::SmallInt(v) => v@.len(),
        OwnedColumn::Int(v) => v@.len(),
        OwnedColumn::BigInt(v) => v@.len(),
        OwnedColumn::Int128(v) => v@.len(),
        OwnedColumn::Decimal75(_, _, v) => v@.len(),
        OwnedColumn::Scalar(v) => v@.len(),
        OwnedColumn::VarChar(s) => s@.len(),
        OwnedColumn::TimestampTZ(_, _, v) => v@.len(),
    }
}

/// Scalar buffers of an owned column hold canonical residues.
pub open spec fn owned_col_wf(c: OwnedColumn) -> bool {
    match c {
        OwnedColumn::Decimal75(_, _, v) => forall|i: int|
            0 <= i < v@.len() ==> (#[trigger] v@[i]).wf(),
        OwnedColumn::Scalar(v) => forall|i: int| 0 <= i < v@.len() ==> (#[trigger] v@[i]).wf(),
        _ => true,
    }
}

impl OwnedColumn {
    /// The number of rows.
    pub fn len(&self) -> (r: usize)
        ensures
            r == owned_col_len(*self),
    {
        match self {
            OwnedColumn::Boolean(v) => v.len(),
            OwnedColumn::TinyInt(v) => v.len(),
            OwnedColumn::SmallInt(v) => v.len(),
            OwnedColumn::Int(v) => v.len(),
            OwnedColumn::BigInt(v) => v.len(),
            OwnedColumn::Int128(v) => v.len(),
            OwnedColumn::Decimal75(_, _, v) => v.len(),
            OwnedColumn::Scalar(v) => v.len(),
            OwnedColumn::VarChar(s) => s.len(),
            OwnedColumn::TimestampTZ(_, _, v) => v.len(),
        }
    }
}

/// The ordering of two integers.
pub open spec fn ord_of_int(a: int, b: int) -> Ordering {
    if a < b {
        Ordering::Less
    } else if a == b {
        Ordering::Equal
    } else {
        Ordering::Greater
    }
}

/// The ordering of two booleans: false sorts before true.
pub open spec fn ord_of_bool(a: bool, b: bool) -> Ordering {
    if a == b {
        Ordering::Equal
    } else if !a {
        Ordering::Less
    } else {
        Ordering::Greater
    }
}

/// Lexicographic ordering of character sequences.
pub open spec fn str_cmp_seq(a: Seq<char>, b: Seq<char>) -> Ordering
    decreases a.len(),
{
    if a.len() == 0 && b.len() == 0 {
        Ordering::Equal
    } else if a.len() == 0 {
        Ordering::Less
    } else if b.len() == 0 {
        Ordering::Greater
    } else if a[0] != b[0] {
        if a[0] < b[0] {
            Ordering::Less
        } else {
            Ordering::Greater
        }
    } else {
        str_cmp_seq(a.drop_first(), b.drop_first())
    }
}

proof fn lemma_str_cmp_skip(a: Seq<char>, b: Seq<char>, k: int)
    requires
        0 <= k <= a.len(),
        k <= b.len(),
        forall|m: int| 0 <= m < k ==> a[m] == b[m],
    ensures
        str_cmp_seq(a, b) == str_cmp_seq(a.skip(k), b.skip(k)),
    decreases k,
{
    if k > 0 {
        assert(a.len() > 0 && b.len() > 0 && a[0] == b[0]);
        let a1 = a.drop_first();
        let b1 = b.drop_first();
        assert(forall|m: int| 0 <= m < k - 1 ==> a1[m] == b1[m]);
        lemma_str_cmp_skip(a1, b1, k - 1);
        assert(a1.skip(k - 1) =~= a.skip(k));
        assert(b1.skip(k - 1) =~= b.skip(k));
    } else {
        assert(a.skip(0) =~= a);
        assert(b.skip(0) =~= b);
    }
}

/// Compares two strings by characters.
pub fn str_compare(a: &str, b: &str) -> (r: Ordering)
    ensures
        r == str_cmp_seq(a@, b@),
{
    let la = a.unicode_len();
    let lb = b.unicode_len();
    let mut k: usize = 0;
    loop
        invariant
            la == a@.len(),
            lb == b@.len(),
            0 <= k <= la,
            k <= lb,
            forall|m: int| 0 <= m < k ==> a@[m] == b@[m],
        decreases la - k,
    {
        proof {
            lemma_str_cmp_skip(a@, b@, k as int);
        }
        if k >= la || k >= lb {
            if la == lb {
                proof {
                    assert(a@.skip(k as int).len() == 0 && b@.skip(k as int).len() == 0);
                }
                return Ordering::Equal;
            } else if la < lb {
                proof {
                    assert(a@.skip(k as int).len() == 0 && b@.skip(k as int).len() > 0);
                }
                return Ordering::Less;
            } else {
                proof {
                    assert(a@.skip(k as int).len() > 0 && b@.skip(k as int).len() == 0);
                }
                return Ordering::Greater;
            }
        }
        let ca = a.get_char(k);
        let cb = b.get_char(k);
        proof {
            assert(a@.skip(k as int)[0] == a@[k as int]);
            assert(b@.skip(k as int)[0] == b@[k as int]);
        }
        if ca != cb {
            if (ca as u32) < (cb as u32) {
                return Ordering::Less;
            } else {
                return Ordering::Greater;
            }
        }
        k += 1;
    }
}

/// The ordering of the cells at rows i and j of one column.
#[verifier::opaque]
pub open spec fn col_cmp_at(c: Column, i: int, j: int) -> Ordering {
    match c {
        Column::Boolean(v) => ord_of_bool(v@[i], v@[j]),
        Column::TinyInt(v) => ord_of_int(v@[i] as int, v@[j] as int),
        Column::SmallInt(v) => ord_of_int(v@[i] as int, v@[j] as int),
        Column::Int(v) => ord_of_int(v@[i] as int, v@[j] as int),
        Column::BigInt(v) => ord_of_int(v@[i] as int, v@[j] as int),
        Column::Int128(v) => ord_of_int(v@[i] as int, v@[j] as int),
        Column::Decimal75(_, _, v) => signed_cmp_spec(v@[i]@, v@[j]@),
        Column::Scalar(v) => signed_cmp_spec(v@[i]@, v@[j]@),
        Column::VarChar(s, _) => str_cmp_seq(s@[i]@, s@[j]@),
        Column::TimestampTZ(_, _, v) => ord_of_int(v@[i] as int, v@[j] as int),
    }
}

/// The lexicographic ordering of rows i and j across the columns: the
/// first column whose cells differ decides; no columns compare equal.
#[verifier::opaque]
pub open spec fn cols_cmp_at(cols: Seq<Column>, i: int, j: int) -> Ordering
    decreases cols.len(),
{
    if cols.len() == 0 {
        Ordering::Equal
    } else if col_cmp_at(cols[0], i, j) != Ordering::Equal {
        col_cmp_at(cols[0], i, j)
    } else {
        cols_cmp_at(cols.drop_first(), i, j)
    }
}

proof fn lemma_cols_cmp_skip(cols: Seq<Column>, i: int, j: int, k: int)
    requires
        0 <= k <= cols.len(),
        forall|m: int| 0 <= m < k ==> col_cmp_at(#[trigger] cols[m], i, j) == Ordering::Equal,
    ensures
        cols_cmp_at(cols, i, j) == cols_cmp_at(cols.skip(k), i, j),
    decreases k,
{
    reveal(cols_cmp_at);
    if k > 0 {
        let c1 = cols.drop_first();
        assert(forall|m: int| 0 <= m < k - 1 ==> col_cmp_at(#[trigger] c1[m], i, j)
            == Ordering::Equal);
        lemma_cols_cmp_skip(c1, i, j, k - 1);
        assert(c1.skip(k - 1) =~= cols.skip(k));
    } else {
        assert(cols.skip(0) =~= cols);
    }
}

/// Compares the cells at rows i and j of one column.
pub fn compare_single_column(c: &Column, i: usize, j: usize) -> (r: Ordering)
    requires
        i < col_len(*c),
        j < col_len(*c),
        col_wf(*c),
    ensures
        r == col_cmp_at(*c, i as int, j as int),
{
    proof {
        reveal(col_cmp_at);
    }
    match c {
        Column::Boolean(v) => {
            let a = v[i];
            let b = v[j];
            if a == b {
                Ordering::Equal
            } else if !a {
                Ordering::Less
            } else {
                Ordering::Greater
            }
        },
        Column::TinyInt(v) => cmp_i8(v[i], v[j]),
        Column::SmallInt(v) => cmp_i16(v[i], v[j]),
        Column::Int(v) => cmp_i32(v[i], v[j]),
        Column::BigInt(v) => cmp_i64(v[i], v[j]),
        Column::Int128(v) => cmp_i128(v[i], v[j]),
        Column::Decimal75(_, _, v) => v[i].signed_cmp(&v[j]),
        Column::Scalar(v) => v[i].signed_cmp(&v[j]),
        Column::VarChar(s, _) => str_compare(s[i].as_str(), s[j].as_str()),
        Column::TimestampTZ(_, _, v) => cmp_i64(v[i], v[j]),
    }
}

/// Compares rows i and j lexicographically across the columns.
pub fn compare_indexes_by_columns(columns: &[Column], i: usize, j: usize) -> (r: Ordering)
    requires
        forall|k: int| 0 <= k < columns@.len() ==> i < col_len(#[trigger] columns@[k])
            && j < col_len(columns@[k]),
        forall|k: int| 0 <= k < columns@.len() ==> col_wf(#[trigger] columns@[k]),
    ensures
        r == cols_cmp_at(columns@, i as int, j as int),
{
    proof {
        reveal(cols_cmp_at);
    }
    let n = columns.len();
    let mut k: usize = 0;
    while k < n
        invariant
            n == columns@.len(),
            0 <= k <= n,
            forall|m: int| 0 <= m < n ==> i < col_len(#[trigger] columns@[m])
                && j < col_len(columns@[m]),
            forall|m: int| 0 <= m < n ==> col_wf(#[trigger] columns@[m]),
            forall|m: int| 0 <= m < k ==> col_cmp_at(#[trigger] columns@[m], i as int, j as int)
                == Ordering::Equal,
        decreases n - k,
    {
        let c = vstd::slice::slice_index_get(columns, k);
        let o = compare_single_column(c, i, j);
        if !matches!(o, Ordering::Equal) {
            proof {
                reveal(cols_cmp_at);
                lemma_cols_cmp_skip(columns@, i as int, j as int, k as int);
                assert(columns@.skip(k as int)[0] == columns@[k as int]);
            }
            return o;
        }
        k += 1;
    }
    proof {
        reveal(cols_cmp_at);
        lemma_cols_cmp_skip(columns@, i as int, j as int, n as int);
        assert(columns@.skip(n as int).len() == 0);
    }
    Ordering::Equal
}

/// The ordering of the cells at rows i and j of one owned column.
pub open spec fn owned_col_cmp_at(c: OwnedColumn, i: int, j: int) -> Ordering {
    match c {
        OwnedColumn::Boolean(v) => ord_of_bool(v@[i], v@[j]),
        OwnedColumn::TinyInt(v) => ord_of_int(v@[i] as int, v@[j] as int),
        OwnedColumn::SmallInt(v) => ord_of_int(v@[i] as int, v@[j] as int),
        OwnedColumn::Int(v) => ord_of_int(v@[i] as int, v@[j] as int),
        OwnedColumn::BigInt(v) => ord_of_int(v@[i] as int, v@[j] as int),
        OwnedColumn::Int128(v) => ord_of_int(v@[i] as int, v@[j] as int),
        OwnedColumn::Decimal75(_, _, v) => signed_cmp_spec(v@[i]@, v@[j]@),
        OwnedColumn::Scalar(v) => signed_cmp_spec(v@[i]@, v@[j]@),
        OwnedColumn::VarChar(s) => str_cmp_seq(s@[i]@, s@[j]@),
        OwnedColumn::TimestampTZ(_, _, v) => ord_of_int(v@[i] as int, v@[j] as int),
    }
}

/// The lexicographic ordering of rows i and j across owned columns.
pub open spec fn owned_cols_cmp_at(cols: Seq<OwnedColumn>, i: int, j: int) -> Ordering
    decreases cols.len(),
{
    if cols.len() == 0 {
        Ordering::Equal
    } else if owned_col_cmp_at(cols[0], i, j) != Ordering::Equal {
        owned_col_cmp_at(cols[0], i, j)
    } else {
        owned_cols_cmp_at(cols.drop_first(), i, j)
    }
}

proof fn lemma_owned_cols_cmp_skip(cols: Seq<OwnedColumn>, i: int, j: int, k: int)
    requires
        0 <= k <= cols.len(),
        forall|m: int| 0 <= m < k ==> owned_col_cmp_at(#[trigger] cols[m], i, j)
            == Ordering::Equal,
    ensures
        owned_cols_cmp_at(cols, i, j) == owned_cols_cmp_at(cols.skip(k), i, j),
    decreases k,
{
    if k > 0 {
        let c1 = cols.drop_first();
        assert(forall|m: int| 0 <= m < k - 1 ==> owned_col_cmp_at(#[trigger] c1[m], i, j)
            == Ordering::Equal);
        lemma_owned_cols_cmp_skip(c1, i, j, k - 1);
        assert(c1.skip(k - 1) =~= cols.skip(k));
    } else {
        assert(cols.skip(0) =~= cols);
    }
}

/// Compares the cells at rows i and j of one owned column.
pub fn compare_single_owned_column(c: &OwnedColumn, i: usize, j: usize) -> (r: Ordering)
    requires
        i < owned_col_len(*c),
        j < owned_col_len(*c),
        owned_col_wf(*c),
    ensures
        r == owned_col_cmp_at(*c, i as int, j as int),
{
    match c {
        OwnedColumn::Boolean(v) => {
            let a = v[i];
            let b = v[j];
            if a == b {
                Ordering::Equal
            } else if !a {
                Ordering::Less
            } else {
                Ordering::Greater
            }
        },
        OwnedColumn::TinyInt(v) => cmp_i8(v[i], v[j]),
        OwnedColumn::SmallInt(v) => cmp_i16(v[i], v[j]),
        OwnedColumn::Int(v) => cmp_i32(v[i], v[j]),
        OwnedColumn::BigInt(v) => cmp_i64(v[i], v[j]),
        OwnedColumn::Int128(v) => cmp_i128(v[i], v[j]),
        OwnedColumn::Decimal75(_, _, v) => v[i].signed_cmp(&v[j]),
        OwnedColumn::Scalar(v) => v[i].signed_cmp(&v[j]),
        OwnedColumn::VarChar(s) => str_compare(s[i].as_str(), s[j].as_str()),
        OwnedColumn::TimestampTZ(_, _, v) => cmp_i64(v[i], v[j]),
    }
}

/// Compares rows i and j lexicographically across owned columns.
pub fn compare_indexes_by_owned_columns(
    columns: &[&OwnedColumn],
    i: usize,
    j: usize,
) -> (r: Ordering)
    requires
        forall|k: int| 0 <= k < columns@.len() ==> i < owned_col_len(*(#[trigger] columns@[k]))
            && j < owned_col_len(*columns@[k]),
        forall|k: int| 0 <= k < columns@.len() ==> owned_col_wf(*(#[trigger] columns@[k])),
    ensures
        r == owned_cols_cmp_at(columns@.map_values(|c: &OwnedColumn| *c), i as int, j as int),
{
    let ghost colseq = columns@.map_values(|c: &OwnedColumn| *c);
    let n = columns.len();
    let mut k: usize = 0;
    while k < n
        invariant
            n == columns@.len(),
            colseq == columns@.map_values(|c: &OwnedColumn| *c),
            colseq.len() == n,
            0 <= k <= n,
            forall|m: int| 0 <= m < n ==> i < owned_col_len(*(#[trigger] columns@[m]))
                && j < owned_col_len(*columns@[m]),
            forall|m: int| 0 <= m < n ==> owned_col_wf(*(#[trigger] columns@[m])),
            forall|m: int| 0 <= m < k ==> owned_col_cmp_at(#[trigger] colseq[m], i as int, j as int)
                == Ordering::Equal,
        decreases n - k,
    {
        let c = *vstd::slice::slice_index_get(columns, k);
        proof {
            assert(colseq[k as int] == *columns@[k as int]);
        }
        let o = compare_single_owned_column(c, i, j);
        if !matches!(o, Ordering::Equal) {
            proof {
                lemma_owned_cols_cmp_skip(colseq, i as int, j as int, k as int);
                assert(colseq.skip(k as int)[0] == colseq[k as int]);
            }
            return o;
        }
        k += 1;
    }
    proof {
        lemma_owned_cols_cmp_skip(colseq, i as int, j as int, n as int);
        assert(colseq.skip(n as int).len() == 0);
    }
    Ordering::Equal
}

/// Compares two i8 values.
pub fn cmp_i8(a: i8, b: i8) -> (r: Ordering)
    ensures
        r == ord_of_int(a as int, b as int),
{
    if a < b {
        Ordering::Less
    } else if a == b {
        Ordering::Equal
    } else {
        Ordering::Greater
    }
}

/// Compares two i16 values.
pub fn cmp_i16(a: i16, b: i16) -> (r: Ordering)
    ensures
        r == ord_of_int(a as int, b as int),
{
    if a < b {
        Ordering::Less
    } else if a == b {
        Ordering::Equal
    } else {
        Ordering::Greater
    }
}

/// Compares two i32 values.
pub fn cmp_i32(a: i32, b: i32) -> (r: Ordering)
    ensures
        r == ord_of_int(a as int, b as int),
{
    if a < b {
        Ordering::Less
    } else if a == b {
        Ordering::Equal
    } else {
        Ordering::Greater
    }
}

/// Compares two i64 values.
pub fn cmp_i64(a: i64, b: i64) -> (r: Ordering)
    ensures
        r == ord_of_int(a as int, b as int),
{
    if a < b {
        Ordering::Less
    } else if a == b {
        Ordering::Equal
    } else {
        Ordering::Greater
    }
}

/// Compares two i128 values.
pub fn cmp_i128(a: i128, b: i128) -> (r: Ordering)
    ensures
        r == ord_of_int(a as int, b as int),
{
    if a < b {
        Ordering::Less
    } else if a == b {
        Ordering::Equal
    } else {
        Ordering::Greater
    }
}


/// The reduced output of a group-by: one row per group of selected rows,
/// with the group keys, the per-group sums, the optional minima and
/// maxima, and the group sizes.
pub struct AggregatedColumns {
    pub group_by_columns: Vec<Column>,
    pub sum_columns: Vec<Vec<Scalar>>,
    pub min_columns: Vec<Vec<Option<Scalar>>>,
    pub max_columns: Vec<Vec<Option<Scalar>>>,
    pub count_column: Vec<u64>,
}

/// The cells of a column at the given row indexes, as a new column: cell
/// k of the result is cell idxs[k] of the input.
pub fn col_select(c: &Column, idxs: &Vec<usize>) -> (r: Column)
    requires
        col_wf(*c),
        forall|i: int| 0 <= i < idxs@.len() ==> #[trigger] idxs@[i] < col_len(*c),
    ensures
        col_len(r) == idxs@.len(),
        col_wf(r),
        r.spec_column_type() == c.spec_column_type(),
        forall|k: int| 0 <= k < idxs@.len() ==> crate::proof_exprs::cell_scalar(r, k)
            == crate::proof_exprs::cell_scalar(*c, #[trigger] idxs@[k] as int),
        c is VarChar ==> r is VarChar && forall|k: int| 0 <= k < idxs@.len() ==> (
        #[trigger] r->VarChar_0@[k])@ == c->VarChar_0@[idxs@[k] as int]@,
{
    let n = idxs.len();
    match c {
        Column::Boolean(v) => {
            let mut out: Vec<bool> = Vec::new();
            let mut i: usize = 0;
            while i < n
                invariant
                    n == idxs@.len(),
                    v@.len() == col_len(*c),
                    forall|j: int| 0 <= j < n ==> #[trigger] idxs@[j] < v@.len(),
                    0 <= i <= n,
                    out@.len() == i,
                    forall|j: int| 0 <= j < i ==> out@[j] == v@[#[trigger] idxs@[j] as int],
                decreases n - i,
            {
                out.push(v[idxs[i]]);
                i += 1;
            }
            Column::Boolean(out)
        },
        Column::TinyInt(v) => {
            let mut out: Vec<i8> = Vec::new();
            let mut i: usize = 0;
            while i < n
                invariant
                    n == idxs@.len(),
                    v@.len() == col_len(*c),
                    forall|j: int| 0 <= j < n ==> #[trigger] idxs@[j] < v@.len(),
                    0 <= i <= n,
                    out@.len() == i,
                    forall|j: int| 0 <= j < i ==> out@[j] == v@[#[trigger] idxs@[j] as int],
                decreases n - i,
            {
                out.push(v[idxs[i]]);
                i += 1;
            }
            Column::TinyInt(out)
        },
        Column::SmallInt(v) => {
            let mut out: Vec<i16> = Vec::new();
            let mut i: usize = 0;
            while i < n
                invariant
                    n == idxs@.len(),
                    v@.len() == col_len(*c),
                    forall|j: int| 0 <= j < n ==> #[trigger] idxs@[j] < v@.len(),
                    0 <= i <= n,
                    out@.len() == i,
                    forall|j: int| 0 <= j < i ==> out@[j] == v@[#[trigger] idxs@[j] as int],
                decreases n - i,
            {
                out.push(v[idxs[i]]);
                i += 1;
            }
            Column::SmallInt(out)
        },
        Column::Int(v) => {
            let mut out: Vec<i32> = Vec::new();
            let mut i: usize = 0;
            while i < n
                invariant
                    n == idxs@.len(),
                    v@.len() == col_len(*c),
                    forall|j: int| 0 <= j < n ==> #[trigger] idxs@[j] < v@.len(),
                    0 <= i <= n,
                    out@.len() == i,
                    forall|j: int| 0 <= j < i ==> out@[j] == v@[#[trigger] idxs@[j] as int],
                decreases n - i,
            {
                out.push(v[idxs[i]]);
                i += 1;
            }
            Column::Int(out)
        },
        Column::BigInt(v) => {
            let mut out: Vec<i64> = Vec::new();
            let mut i: usize = 0;
            while i < n
                invariant
                    n == idxs@.len(),
                    v@.len() == col_len(*c),
                    forall|j: int| 0 <= j < n ==> #[trigger] idxs@[j] < v@.len(),
                    0 <= i <= n,
                    out@.len() == i,
                    forall|j: int| 0 <= j < i ==> out@[j] == v@[#[trigger] idxs@[j] as int],
                decreases n - i,
            {
                out.push(v[idxs[i]]);
                i += 1;
            }
            Column::BigInt(out)
        },
        Column::Int128(v) => {
            let mut out: Vec<i128> = Vec::new();
            let mut i: usize = 0;
            while i < n
                invariant
                    n == idxs@.len(),
                    v@.len() == col_len(*c),
                    forall|j: int| 0 <= j < n ==> #[trigger] idxs@[j] < v@.len(),
                    0 <= i <= n,
                    out@.len() == i,
                    forall|j: int| 0 <= j < i ==> out@[j] == v@[#[trigger] idxs@[j] as int],
                decreases n - i,
            {
                out.push(v[idxs[i]]);
                i += 1;
            }
            Column::Int128(out)
        },
        Column::Decimal75(p, sc, v) => {
            let mut out: Vec<Scalar> = Vec::new();
            let mut i: usize = 0;
            while i < n
                invariant
                    n == idxs@.len(),
                    v@.len() == col_len(*c),
                    forall|j: int| 0 <= j < n ==> #[trigger] idxs@[j] < v@.len(),
                    forall|j: int| 0 <= j < v@.len() ==> (#[trigger] v@[j]).wf(),
                    0 <= i <= n,
                    out@.len() == i,
                    forall|j: int| 0 <= j < i ==> out@[j] == v@[#[trigger] idxs@[j] as int],
                decreases n - i,
            {
                out.push(v[idxs[i]]);
                i += 1;
            }
            proof {
                assert forall|j: int| 0 <= j < out@.len() implies (#[trigger] out@[j]).wf() by {
                    assert(out@[j] == v@[idxs@[j] as int]);
                }
            }
            Column::Decimal75(*p, *sc, out)
        },
        Column::Scalar(v) => {
            let mut out: Vec<Scalar> = Vec::new();
            let mut i: usize = 0;
            while i < n
                invariant
                    n == idxs@.len(),
                    v@.len() == col_len(*c),
                    forall|j: int| 0 <= j < n ==> #[trigger] idxs@[j] < v@.len(),
                    forall|j: int| 0 <= j < v@.len() ==> (#[trigger] v@[j]).wf(),
                    0 <= i <= n,
                    out@.len() == i,
                    forall|j: int| 0 <= j < i ==> out@[j] == v@[#[trigger] idxs@[j] as int],
                decreases n - i,
            {
                out.push(v[idxs[i]]);
                i += 1;
            }
            proof {
                assert forall|j: int| 0 <= j < out@.len() implies (#[trigger] out@[j]).wf() by {
                    assert(out@[j] == v@[idxs@[j] as int]);
                }
            }
            Column::Scalar(out)
        },
        Column::VarChar(strs, hashes) => {
            let mut out_s: Vec<String> = Vec::new();
            let mut out_h: Vec<Scalar> = Vec::new();
            let mut i: usize = 0;
            while i < n
                invariant
                    n == idxs@.len(),
                    strs@.len() == col_len(*c),
                    hashes@.len() == strs@.len(),
                    forall|j: int| 0 <= j < n ==> #[trigger] idxs@[j] < strs@.len(),
                    forall|j: int| 0 <= j < hashes@.len() ==> (#[trigger] hashes@[j])@
                        == crate::scalar::varchar_hash(strs@[j]@),
                    forall|j: int| 0 <= j < hashes@.len() ==> (#[trigger] hashes@[j]).wf(),
                    0 <= i <= n,
                    out_s@.len() == i,
                    out_h@.len() == i,
                    forall|j: int| 0 <= j < i ==> (#[trigger] out_s@[j])@ == strs@[idxs@[j] as int]@,
                    forall|j: int| 0 <= j < i ==> out_h@[j] == hashes@[#[trigger] idxs@[j] as int],
                    forall|j: int| 0 <= j < i ==> (#[trigger] out_h@[j])@
                        == crate::scalar::varchar_hash(out_s@[j]@),
                    forall|j: int| 0 <= j < i ==> (#[trigger] out_h@[j]).wf(),
                decreases n - i,
            {
                out_s.push(strs[idxs[i]].clone());
                out_h.push(hashes[idxs[i]]);
                i += 1;
            }
            Column::VarChar(out_s, out_h)
        },
        Column::TimestampTZ(u, tz, v) => {
            let mut out: Vec<i64> = Vec::new();
            let mut i: usize = 0;
            while i < n
                invariant
                    n == idxs@.len(),
                    v@.len() == col_len(*c),
                    forall|j: int| 0 <= j < n ==> #[trigger] idxs@[j] < v@.len(),
                    0 <= i <= n,
                    out@.len() == i,
                    forall|j: int| 0 <= j < i ==> out@[j] == v@[#[trigger] idxs@[j] as int],
                decreases n - i,
            {
                out.push(v[idxs[i]]);
                i += 1;
            }
            Column::TimestampTZ(*u, *tz, out)
        },
    }
}

/// Rows i and j with no columns to compare, or one row against itself,
/// compare equal.
pub proof fn lemma_str_cmp_refl(a: Seq<char>)
    ensures
        str_cmp_seq(a, a) == Ordering::Equal,
    decreases a.len(),
{
    if a.len() > 0 {
        lemma_str_cmp_refl(a.drop_first());
    }
}

/// Every cell compares equal to itself.
pub proof fn lemma_col_cmp_refl(c: Column, i: int)
    ensures
        col_cmp_at(c, i, i) == Ordering::Equal,
{
    reveal(col_cmp_at);
    match c {
        Column::VarChar(strs, _) => {
            lemma_str_cmp_refl(strs@[i]@);
        },
        _ => {
        },
    }
}

/// Every row compares equal to itself.
pub proof fn lemma_cols_cmp_refl(cols: Seq<Column>, i: int)
    ensures
        cols_cmp_at(cols, i, i) == Ordering::Equal,
    decreases cols.len(),
{
    reveal(cols_cmp_at);
    if cols.len() > 0 {
        lemma_col_cmp_refl(cols[0], i);
        lemma_cols_cmp_refl(cols.drop_first(), i);
    }
}

/// The indices of the selected rows, in row order.
pub open spec fn selected_indices(selection: Seq<bool>) -> Seq<int>
    decreases selection.len(),
{
    if selection.len() == 0 {
        Seq::<int>::empty()
    } else if selection.last() {
        selected_indices(selection.drop_last()).push(selection.len() - 1)
    } else {
        selected_indices(selection.drop_last())
    }
}

/// The integer views of a vector of row indexes.
pub open spec fn idx_views(s: Seq<usize>) -> Seq<int> {
    s.map_values(|x: usize| x as int)
}

/// The field sum of the cells of the column at the index window
/// idxs[lo..t], folded left to right.
pub open spec fn run_sum(c: Column, idxs: Seq<int>, lo: int, t: int) -> int
    decreases t - lo,
{
    if t <= lo {
        0
    } else {
        crate::scalar::fmod(
            (run_sum(c, idxs, lo, t - 1) + crate::proof_exprs::cell_scalar(
                c,
                idxs[t - 1],
            )) as int,
        )
    }
}

/// The signed extreme of the cells of the column at the index window
/// idxs[lo..t]: the minimum where take_min holds, else the maximum; none
/// on an empty window.
pub open spec fn run_extreme(c: Column, idxs: Seq<int>, lo: int, t: int, take_min: bool) -> Option<
    nat,
>
    decreases t - lo,
{
    if t <= lo {
        None
    } else {
        let prev = run_extreme(c, idxs, lo, t - 1, take_min);
        let v = crate::proof_exprs::cell_scalar(c, idxs[t - 1]);
        match prev {
            None => Some(v),
            Some(b) => if take_min {
                if signed_cmp_spec(v, b) == Ordering::Less {
                    Some(v)
                } else {
                    Some(b)
                }
            } else {
                if signed_cmp_spec(v, b) == Ordering::Greater {
                    Some(v)
                } else {
                    Some(b)
                }
            },
        }
    }
}

/// Every row of the index window shares its keys with the window's first
/// row.
pub open spec fn run_keys_equal(group_by: Seq<Column>, idxs: Seq<int>, lo: int, hi: int) -> bool {
    forall|t: int| lo <= t < hi ==> cols_cmp_at(group_by, idxs[lo], #[trigger] idxs[t])
        == Ordering::Equal
}

/// Each block of the bounds list holds rows whose keys all equal the
/// block's first row's, and adjacent blocks hold differing keys.
#[verifier::opaque]
pub open spec fn runs_keyed(
    group_by: Seq<Column>,
    idxs: Seq<int>,
    bounds: Seq<(usize, usize)>,
) -> bool {
    &&& forall|r: int| 0 <= r < bounds.len() ==> run_keys_equal(
        group_by,
        idxs,
        ((#[trigger] bounds[r]).0) as int,
        (bounds[r].1) as int,
    )
    &&& forall|r: int| 0 <= r < bounds.len() - 1 ==> cols_cmp_at(
        group_by,
        idxs[((#[trigger] bounds[r]).0) as int],
        idxs[(bounds[r + 1].0) as int],
    ) != Ordering::Equal
}

/// The aggregate is the run collapse of the ordered index list: the list
/// holds exactly the selected rows, the runs partition it, and each group
/// reports its first row's keys, its field sums, its signed extremes and
/// its size.
pub open spec fn aggregate_matches(
    group_by: Seq<Column>,
    sum_columns: Seq<Column>,
    min_columns: Seq<Column>,
    max_columns: Seq<Column>,
    selection: Seq<bool>,
    agg: AggregatedColumns,
    idxs: Seq<int>,
    bounds: Seq<(usize, usize)>,
) -> bool {
    &&& idxs.to_multiset() == selected_indices(selection).to_multiset()
    &&& forall|q: int| 0 <= q < idxs.len() ==> 0 <= #[trigger] idxs[q] < selection.len()
    &&& (idxs.len() == 0 ==> bounds.len() == 0)
    &&& (idxs.len() > 0 ==> bounds.len() > 0 && bounds[0].0 == 0 && bounds.last().1 == idxs.len())
    &&& forall|r: int| 0 <= r < bounds.len() ==> 0 <= (#[trigger] bounds[r]).0 < bounds[r].1
        <= idxs.len()
    &&& forall|r: int| 0 <= r < bounds.len() - 1 ==> (#[trigger] bounds[r]).1 == bounds[r + 1].0
    &&& runs_keyed(group_by, idxs, bounds)
    &&& agg.count_column@.len() == bounds.len()
    &&& forall|r: int| 0 <= r < bounds.len() ==> agg.count_column@[r] == ((
    #[trigger] bounds[r]).1 - bounds[r].0) as u64
    &&& agg.group_by_columns@.len() == group_by.len()
    &&& forall|k: int| 0 <= k < group_by.len() ==> col_len(#[trigger] agg.group_by_columns@[k])
        == bounds.len() && agg.group_by_columns@[k].spec_column_type()
        == group_by[k].spec_column_type()
    &&& forall|k: int, r: int|
        #![trigger agg.group_by_columns@[k], bounds[r]]
        0 <= k < group_by.len() && 0 <= r < bounds.len() ==> crate::proof_exprs::cell_scalar(
            agg.group_by_columns@[k],
            r,
        ) == crate::proof_exprs::cell_scalar(group_by[k], idxs[(bounds[r].0) as int])
    &&& agg.sum_columns@.len() == sum_columns.len()
    &&& forall|k: int| 0 <= k < sum_columns.len() ==> (#[trigger] agg.sum_columns@[k])@.len()
        == bounds.len()
    &&& forall|k: int, r: int|
        #![trigger agg.sum_columns@[k], bounds[r]]
        0 <= k < sum_columns.len() && 0 <= r < bounds.len() ==> (agg.sum_columns@[k]@[r])@
            == run_sum(sum_columns[k], idxs, (bounds[r].0) as int, (bounds[r].1) as int)
    &&& agg.min_columns@.len() == min_columns.len()
    &&& forall|k: int| 0 <= k < min_columns.len() ==> (#[trigger] agg.min_columns@[k])@.len()
        == bounds.len()
    &&& forall|k: int, r: int|
        #![trigger agg.min_columns@[k], bounds[r]]
        0 <= k < min_columns.len() && 0 <= r < bounds.len() ==> option_scalar_matches(
            agg.min_columns@[k]@[r],
            run_extreme(min_columns[k], idxs, (bounds[r].0) as int, (bounds[r].1) as int, true),
        )
    &&& agg.max_columns@.len() == max_columns.len()
    &&& forall|k: int| 0 <= k < max_columns.len() ==> (#[trigger] agg.max_columns@[k])@.len()
        == bounds.len()
    &&& forall|k: int, r: int|
        #![trigger agg.max_columns@[k], bounds[r]]
        0 <= k < max_columns.len() && 0 <= r < bounds.len() ==> option_scalar_matches(
            agg.max_columns@[k]@[r],
            run_extreme(max_columns[k], idxs, (bounds[r].0) as int, (bounds[r].1) as int, false),
        )
}

/// Some ordering of the selected rows and some run partition of it
/// produce exactly this aggregate.
pub open spec fn aggregate_ok(
    group_by: Seq<Column>,
    sum_columns: Seq<Column>,
    min_columns: Seq<Column>,
    max_columns: Seq<Column>,
    selection: Seq<bool>,
    agg: AggregatedColumns,
) -> bool {
    exists|idxs: Seq<int>, bounds: Seq<(usize, usize)>| #[trigger] aggregate_matches(
        group_by,
        sum_columns,
        min_columns,
        max_columns,
        selection,
        agg,
        idxs,
        bounds,
    )
}

/// An optional scalar stands for an optional residue.
pub open spec fn option_scalar_matches(s: Option<Scalar>, v: Option<nat>) -> bool {
    match (s, v) {
        (Some(a), Some(b)) => a@ == b,
        (None, None) => true,
        _ => false,
    }
}

/// Orders row indexes by the lexicographic order of the group-by keys,
/// extracting a least remaining row at each step; the result holds
/// exactly the given indexes.
fn order_indexes_by_columns(group_by: &Vec<Column>, idxs: Vec<usize>, table_len: usize) -> (r: Vec<
    usize,
>)
    requires
        forall|k: int| 0 <= k < group_by@.len() ==> col_len(#[trigger] group_by@[k]) == table_len,
        forall|k: int| 0 <= k < group_by@.len() ==> col_wf(#[trigger] group_by@[k]),
        forall|i: int| 0 <= i < idxs@.len() ==> #[trigger] idxs@[i] < table_len,
    ensures
        r@.len() == idxs@.len(),
        forall|i: int| 0 <= i < r@.len() ==> #[trigger] r@[i] < table_len,
        idx_views(r@).to_multiset() == idx_views(idxs@).to_multiset(),
{
    let ghost orig = idx_views(idxs@);
    let mut work = idxs;
    let mut out: Vec<usize> = Vec::new();
    proof {
        broadcast use vstd::multiset::group_multiset_axioms;

        idx_views(out@).to_multiset_ensures();
        assert(idx_views(out@) =~= Seq::<int>::empty());
        assert forall|x: int| idx_views(out@).to_multiset().count(x) == 0 by {
            idx_views(out@).to_multiset_ensures();
        }
        assert(idx_views(out@).to_multiset().add(idx_views(work@).to_multiset())
            =~= orig.to_multiset());
    }
    while work.len() > 0
        invariant
            forall|k: int| 0 <= k < group_by@.len() ==> col_len(#[trigger] group_by@[k])
                == table_len,
            forall|k: int| 0 <= k < group_by@.len() ==> col_wf(#[trigger] group_by@[k]),
            forall|i: int| 0 <= i < work@.len() ==> #[trigger] work@[i] < table_len,
            forall|i: int| 0 <= i < out@.len() ==> #[trigger] out@[i] < table_len,
            out@.len() + work@.len() == orig.len(),
            idx_views(out@).to_multiset().add(idx_views(work@).to_multiset())
                =~= orig.to_multiset(),
        decreases work@.len(),
    {
        let mut m: usize = 0;
        let mut j: usize = 1;
        while j < work.len()
            invariant
                0 <= m < work@.len(),
                m < j,
                0 < j <= work@.len() || work@.len() == 0,
                forall|k: int| 0 <= k < group_by@.len() ==> col_len(#[trigger] group_by@[k])
                    == table_len,
                forall|k: int| 0 <= k < group_by@.len() ==> col_wf(#[trigger] group_by@[k]),
                forall|i: int| 0 <= i < work@.len() ==> #[trigger] work@[i] < table_len,
            decreases work@.len() - j,
        {
            if matches!(
                compare_indexes_by_columns(group_by.as_slice(), work[j], work[m]),
                Ordering::Less,
            ) {
                m = j;
            }
            j += 1;
        }
        let ghost work_before = idx_views(work@);
        let ghost out_before = idx_views(out@);
        let v = work.remove(m);
        out.push(v);
        proof {
            broadcast use vstd::multiset::group_multiset_axioms;

            work_before.to_multiset_ensures();
            out_before.to_multiset_ensures();
            assert(idx_views(work@) =~= work_before.remove(m as int));
            assert(idx_views(out@) =~= out_before.push(v as int));
            assert(work_before.remove(m as int).to_multiset() =~= work_before.to_multiset()
                .remove(work_before[m as int]));
            assert(work_before[m as int] == v as int);
            assert(out_before.push(v as int).to_multiset() =~= out_before.to_multiset().insert(
                v as int,
            ));
            assert(work_before.to_multiset().count(v as int) > 0) by {
                assert(work_before.contains(v as int));
            }
            assert(idx_views(out@).to_multiset().add(idx_views(work@).to_multiset())
                =~= orig.to_multiset());
        }
    }
    proof {
        broadcast use vstd::multiset::group_multiset_axioms;

        idx_views(work@).to_multiset_ensures();
        assert(idx_views(work@) =~= Seq::<int>::empty());
        assert(idx_views(out@).to_multiset() =~= orig.to_multiset());
    }
    out
}

/// Splits the ordered index list into maximal runs of rows whose keys
/// equal the run's first row: returns the first row index, the size and
/// the window of each run.
#[verifier::rlimit(100)]
#[verifier::spinoff_prover]
#[verifier::loop_isolation(false)]
/// What the run collapse returns: per-run first indices, sizes and
/// windows forming a contiguous partition of the ordered index list into
/// key-equal blocks with differing neighbours.
pub open spec fn collapse_ensures(
    group_by: Seq<Column>,
    idxs: Seq<usize>,
    table_len: nat,
    starts: Vec<usize>,
    counts: Vec<u64>,
    bounds: Vec<(usize, usize)>,
) -> bool {
    let iv = idx_views(idxs);
    &&& starts@.len() == counts@.len()
    &&& bounds@.len() == counts@.len()
    &&& forall|q: int| 0 <= q < starts@.len() ==> #[trigger] starts@[q] < table_len
    &&& forall|q: int| 0 <= q < bounds@.len() ==> 0 <= (#[trigger] bounds@[q]).0 < bounds@[q].1
        <= idxs.len()
    &&& forall|q: int| 0 <= q < bounds@.len() - 1 ==> (#[trigger] bounds@[q]).1 == bounds@[q
        + 1].0
    &&& (idxs.len() > 0 ==> bounds@.len() > 0 && bounds@[0].0 == 0 && bounds@.last().1
        == idxs.len())
    &&& (idxs.len() == 0 ==> bounds@.len() == 0)
    &&& forall|q: int| 0 <= q < bounds@.len() ==> #[trigger] starts@[q] == idxs[(
    bounds@[q].0) as int]
    &&& forall|q: int| 0 <= q < counts@.len() ==> #[trigger] counts@[q] == (bounds@[q].1
        - bounds@[q].0) as u64
    &&& runs_keyed(group_by, iv, bounds@)
}

#[verifier::rlimit(100)]
#[verifier::spinoff_prover]
fn collapse_runs(group_by: &Vec<Column>, idxs: &Vec<usize>, table_len: usize) -> (r: (
    Vec<usize>,
    Vec<u64>,
    Vec<(usize, usize)>,
))
    requires
        forall|k: int| 0 <= k < group_by@.len() ==> col_len(#[trigger] group_by@[k]) == table_len,
        forall|k: int| 0 <= k < group_by@.len() ==> col_wf(#[trigger] group_by@[k]),
        forall|q: int| 0 <= q < idxs@.len() ==> #[trigger] idxs@[q] < table_len,
    ensures
        collapse_ensures(group_by@, idxs@, table_len as nat, r.0, r.1, r.2),
{
    let m = idxs.len();
    let mut starts: Vec<usize> = Vec::new();
    let mut counts: Vec<u64> = Vec::new();
    let mut run_bounds: Vec<(usize, usize)> = Vec::new();
    let mut p: usize = 0;
    while p < m
        invariant
            m == idxs@.len(),
                                    forall|q: int| 0 <= q < m ==> #[trigger] idxs@[q] < table_len,
            forall|k5: int| 0 <= k5 < group_by@.len() ==> col_len(#[trigger] group_by@[k5])
                == table_len,
            forall|k5: int| 0 <= k5 < group_by@.len() ==> col_wf(#[trigger] group_by@[k5]),
            0 <= p <= m,
            starts@.len() == counts@.len(),
            run_bounds@.len() == counts@.len(),
            forall|q: int| 0 <= q < starts@.len() ==> #[trigger] starts@[q] < table_len,
            forall|q: int| 0 <= q < run_bounds@.len() ==> 0 <= (#[trigger] run_bounds@[q]).0
                < run_bounds@[q].1 <= m,
            forall|q: int| 0 <= q < run_bounds@.len() - 1 ==> (#[trigger] run_bounds@[q]).1
                == run_bounds@[q + 1].0,
            run_bounds@.len() > 0 ==> run_bounds@[0].0 == 0 && run_bounds@.last().1 == p,
            run_bounds@.len() == 0 ==> p == 0,
            forall|q: int| 0 <= q < run_bounds@.len() ==> #[trigger] starts@[q] == idxs@[(
            run_bounds@[q].0) as int],
            forall|q: int| 0 <= q < counts@.len() ==> #[trigger] counts@[q] == (
            run_bounds@[q].1 - run_bounds@[q].0) as u64,
            forall|q: int| 0 <= q < run_bounds@.len() ==> run_keys_equal(
                group_by@,
                idx_views(idxs@),
                ((#[trigger] run_bounds@[q]).0) as int,
                (run_bounds@[q].1) as int,
            ),
            forall|q: int| 0 <= q < run_bounds@.len() - 1 ==> cols_cmp_at(
                group_by@,
                idx_views(idxs@)[((#[trigger] run_bounds@[q]).0) as int],
                idx_views(idxs@)[(run_bounds@[q + 1].0) as int],
            ) != Ordering::Equal,
            run_bounds@.len() > 0 && p < m ==> cols_cmp_at(
                group_by@,
                idx_views(idxs@)[(run_bounds@.last().0) as int],
                idx_views(idxs@)[p as int],
            ) != Ordering::Equal,
        decreases m - p,
    {
        let start = p;
        let mut q: usize = p + 1;
        while q < m && matches!(
            compare_indexes_by_columns(group_by.as_slice(), idxs[start], idxs[q]),
            Ordering::Equal,
        )
            invariant
                m == idxs@.len(),
                                                forall|t: int| 0 <= t < m ==> #[trigger] idxs@[t] < table_len,
                forall|k5: int| 0 <= k5 < group_by@.len() ==> col_len(
                    #[trigger] group_by@[k5],
                ) == table_len,
                forall|k5: int| 0 <= k5 < group_by@.len() ==> col_wf(#[trigger] group_by@[k5]),
                start < q <= m,
                start < m,
                forall|t: int| start < t < q ==> #[trigger] cols_cmp_at(
                    group_by@,
                    idx_views(idxs@)[start as int],
                    idx_views(idxs@)[t],
                ) == Ordering::Equal,
            decreases m - q,
        {
            q += 1;
        }
        proof {
            lemma_cols_cmp_refl(group_by@, idx_views(idxs@)[start as int]);
            assert(run_keys_equal(group_by@, idx_views(idxs@), start as int, q as int));
        }
        starts.push(idxs[start]);
        counts.push((q - start) as u64);
        run_bounds.push((start, q));
        p = q;
    }
    proof {
        reveal(runs_keyed);
        assert(runs_keyed(group_by@, idx_views(idxs@), run_bounds@));
        assert(collapse_ensures(group_by@, idxs@, table_len as nat, starts, counts, run_bounds));
    }
    (starts, counts, run_bounds)
}

/// Aggregates the columns by the group-by keys over the selected rows:
/// the selected rows are ordered by their keys and collapsed into runs;
/// each group reports its first row's keys, the field sum of each sum
/// column, the signed minimum and maximum of each min and max column, and
/// its size. The inputs are accepted exactly when every column shares the
/// selection's length.
#[verifier::rlimit(100)]
#[verifier::spinoff_prover]
pub fn aggregate_columns(
    group_by: &Vec<Column>,
    sum_columns: &Vec<Column>,
    min_columns: &Vec<Column>,
    max_columns: &Vec<Column>,
    selection: &Vec<bool>,
) -> (r: Result<AggregatedColumns, crate::builders::ProofError>)
    requires
        forall|k: int| 0 <= k < group_by@.len() ==> col_wf(#[trigger] group_by@[k]),
        forall|k: int| 0 <= k < sum_columns@.len() ==> col_wf(#[trigger] sum_columns@[k]),
        forall|k: int| 0 <= k < min_columns@.len() ==> col_wf(#[trigger] min_columns@[k]),
        forall|k: int| 0 <= k < max_columns@.len() ==> col_wf(#[trigger] max_columns@[k]),
    ensures
        match r {
            Ok(agg) => aggregate_ok(
                group_by@,
                sum_columns@,
                min_columns@,
                max_columns@,
                selection@,
                agg,
            ),
            Err(_) => !(forall|k: int| 0 <= k < group_by@.len() ==> col_len(
                #[trigger] group_by@[k],
            ) == selection@.len()) || !(forall|k: int| 0 <= k < sum_columns@.len() ==> col_len(
                #[trigger] sum_columns@[k],
            ) == selection@.len()) || !(forall|k: int| 0 <= k < min_columns@.len() ==> col_len(
                #[trigger] min_columns@[k],
            ) == selection@.len()) || !(forall|k: int| 0 <= k < max_columns@.len() ==> col_len(
                #[trigger] max_columns@[k],
            ) == selection@.len()),
        },
{
    let n = selection.len();
    // every column must share the selection's length
    let mut k: usize = 0;
    while k < group_by.len()
        invariant
            0 <= k <= group_by@.len(),
            n == selection@.len(),
            forall|m: int| 0 <= m < k ==> col_len(#[trigger] group_by@[m]) == n,
        decreases group_by@.len() - k,
    {
        if group_by[k].len() != n {
            return Err(crate::builders::ProofError::InvalidColumn);
        }
        k += 1;
    }
    let mut k2: usize = 0;
    while k2 < sum_columns.len()
        invariant
            0 <= k2 <= sum_columns@.len(),
            n == selection@.len(),
            forall|m: int| 0 <= m < k2 ==> col_len(#[trigger] sum_columns@[m]) == n,
        decreases sum_columns@.len() - k2,
    {
        if sum_columns[k2].len() != n {
            return Err(crate::builders::ProofError::InvalidColumn);
        }
        k2 += 1;
    }
    let mut k3: usize = 0;
    while k3 < min_columns.len()
        invariant
            0 <= k3 <= min_columns@.len(),
            n == selection@.len(),
            forall|m: int| 0 <= m < k3 ==> col_len(#[trigger] min_columns@[m]) == n,
        decreases min_columns@.len() - k3,
    {
        if min_columns[k3].len() != n {
            return Err(crate::builders::ProofError::InvalidColumn);
        }
        k3 += 1;
    }
    let mut k4: usize = 0;
    while k4 < max_columns.len()
        invariant
            0 <= k4 <= max_columns@.len(),
            n == selection@.len(),
            forall|m: int| 0 <= m < k4 ==> col_len(#[trigger] max_columns@[m]) == n,
        decreases max_columns@.len() - k4,
    {
        if max_columns[k4].len() != n {
            return Err(crate::builders::ProofError::InvalidColumn);
        }
        k4 += 1;
    }
    // collect the selected rows in row order
    let mut picked: Vec<usize> = Vec::new();
    let mut i: usize = 0;
    while i < n
        invariant
            n == selection@.len(),
            0 <= i <= n,
            forall|m: int| 0 <= m < picked@.len() ==> #[trigger] picked@[m] < n,
            idx_views(picked@) =~= selected_indices(selection@.take(i as int)),
        decreases n - i,
    {
        proof {
            assert(selection@.take(i + 1).drop_last() =~= selection@.take(i as int));
            assert(selection@.take(i + 1).last() == selection@[i as int]);
        }
        if selection[i] {
            picked.push(i);
            proof {
                assert(idx_views(picked@) =~= idx_views(picked@.drop_last()).push(i as int));
                assert(picked@.drop_last() =~= picked@.subrange(0, picked@.len() - 1));
            }
        }
        i += 1;
    }
    proof {
        assert(selection@.take(n as int) =~= selection@);
    }
    let ghost pick_iv = idx_views(picked@);
    let idxs = order_indexes_by_columns(group_by, picked, n);
    let ghost iv = idx_views(idxs@);
    let ghost gcols = group_by@;
    let m = idxs.len();
    // collapse runs of rows whose keys equal the run's first row
    let (starts, counts, run_bounds) = collapse_runs(group_by, &idxs, n);
    // the group keys: the cells of each group-by column at the run starts
    let g = counts.len();
    let mut group_by_columns: Vec<Column> = Vec::new();
    let mut k5: usize = 0;
    while k5 < group_by.len()
        invariant
            0 <= k5 <= group_by@.len(),
            n == selection@.len(),
            g == starts@.len(),
            forall|q: int| 0 <= q < starts@.len() ==> #[trigger] starts@[q] < n,
            forall|t: int| 0 <= t < group_by@.len() ==> col_len(#[trigger] group_by@[t]) == n,
            forall|t: int| 0 <= t < group_by@.len() ==> col_wf(#[trigger] group_by@[t]),
            group_by_columns@.len() == k5,
            forall|t: int| 0 <= t < k5 ==> col_len(#[trigger] group_by_columns@[t]) == g
                && group_by_columns@[t].spec_column_type() == group_by@[t].spec_column_type(),
            forall|t: int, q: int|
                #![trigger group_by_columns@[t], starts@[q]]
                0 <= t < k5 && 0 <= q < g ==> crate::proof_exprs::cell_scalar(
                    group_by_columns@[t],
                    q,
                ) == crate::proof_exprs::cell_scalar(group_by@[t], starts@[q] as int),
        decreases group_by@.len() - k5,
    {
        group_by_columns.push(col_select(&group_by[k5], &starts));
        k5 += 1;
    }
    // per-group sums in the field
    let mut out_sums: Vec<Vec<Scalar>> = Vec::new();
    let mut k6: usize = 0;
    while k6 < sum_columns.len()
        invariant
            0 <= k6 <= sum_columns@.len(),
            n == selection@.len(),
            m == idxs@.len(),
            iv == idx_views(idxs@),
            g == run_bounds@.len(),
            forall|q: int| 0 <= q < m ==> #[trigger] idxs@[q] < n,
            forall|q: int| 0 <= q < run_bounds@.len() ==> 0 <= (#[trigger] run_bounds@[q]).0
                < run_bounds@[q].1 <= m,
            forall|t: int| 0 <= t < sum_columns@.len() ==> col_len(
                #[trigger] sum_columns@[t],
            ) == n,
            forall|t: int| 0 <= t < sum_columns@.len() ==> col_wf(#[trigger] sum_columns@[t]),
            out_sums@.len() == k6,
            forall|t: int| 0 <= t < k6 ==> (#[trigger] out_sums@[t])@.len() == g,
            forall|t: int, q: int|
                #![trigger out_sums@[t], run_bounds@[q]]
                0 <= t < k6 && 0 <= q < g ==> (out_sums@[t]@[q])@ == run_sum(
                    sum_columns@[t],
                    iv,
                    run_bounds@[q].0 as int,
                    run_bounds@[q].1 as int,
                ),
        decreases sum_columns@.len() - k6,
    {
        let scalars = crate::proof_exprs::col_to_scalars(&sum_columns[k6]);
        let mut sums: Vec<Scalar> = Vec::new();
        let mut r: usize = 0;
        while r < g
            invariant
                g == run_bounds@.len(),
                m == idxs@.len(),
                n == selection@.len(),
                iv == idx_views(idxs@),
                scalars@.len() == n,
                forall|q: int| 0 <= q < m ==> #[trigger] idxs@[q] < n,
                forall|q: int| 0 <= q < run_bounds@.len() ==> 0 <= (#[trigger] run_bounds@[q]).0
                    < run_bounds@[q].1 <= m,
                forall|q: int| 0 <= q < scalars@.len() ==> (#[trigger] scalars@[q]).wf(),
                forall|q: int| 0 <= q < scalars@.len() ==> (#[trigger] scalars@[q])@
                    == crate::proof_exprs::cell_scalar(sum_columns@[k6 as int], q),
                k6 < sum_columns@.len(),
                col_len(sum_columns@[k6 as int]) == n,
                0 <= r <= g,
                sums@.len() == r,
                forall|q: int| 0 <= q < r ==> ((#[trigger] sums@[q])@) as int == run_sum(
                    sum_columns@[k6 as int],
                    iv,
                    run_bounds@[q].0 as int,
                    run_bounds@[q].1 as int,
                ),
            decreases g - r,
        {
            let (lo, hi) = run_bounds[r];
            let mut acc = Scalar::zero();
            let mut t: usize = lo;
            while t < hi
                invariant
                    m == idxs@.len(),
                    n == selection@.len(),
                    iv == idx_views(idxs@),
                    scalars@.len() == n,
                    forall|q: int| 0 <= q < m ==> #[trigger] idxs@[q] < n,
                    lo <= t <= hi <= m,
                    forall|q: int| 0 <= q < scalars@.len() ==> (#[trigger] scalars@[q]).wf(),
                    forall|q: int| 0 <= q < scalars@.len() ==> (#[trigger] scalars@[q])@
                        == crate::proof_exprs::cell_scalar(sum_columns@[k6 as int], q),
                    k6 < sum_columns@.len(),
                    acc.wf(),
                    (acc@) as int == run_sum(
                        sum_columns@[k6 as int],
                        iv,
                        lo as int,
                        t as int,
                    ),
                decreases hi - t,
            {
                acc = acc.add(&scalars[idxs[t]]);
                t += 1;
            }
            sums.push(acc);
            r += 1;
        }
        out_sums.push(sums);
        k6 += 1;
    }
    // per-group signed minima and maxima
    let out_mins = extreme_columns(min_columns, &idxs, &run_bounds, n, true);
    let out_maxs = extreme_columns(max_columns, &idxs, &run_bounds, n, false);
    let agg = AggregatedColumns {
        group_by_columns,
        sum_columns: out_sums,
        min_columns: out_mins,
        max_columns: out_maxs,
        count_column: counts,
    };
    proof {
        assert(iv.to_multiset() == selected_indices(selection@).to_multiset()) by {
            assert(pick_iv == selected_indices(selection@));
        }
        assert forall|k7: int, q: int|
            #![trigger agg.group_by_columns@[k7], run_bounds@[q]]
            0 <= k7 < group_by@.len() && 0 <= q < run_bounds@.len() implies
            crate::proof_exprs::cell_scalar(agg.group_by_columns@[k7], q)
                == crate::proof_exprs::cell_scalar(
                group_by@[k7],
                iv[(run_bounds@[q].0) as int],
            ) by {
            assert(starts@[q] == idxs@[(run_bounds@[q].0) as int]);
            assert(crate::proof_exprs::cell_scalar(group_by_columns@[k7], q)
                == crate::proof_exprs::cell_scalar(group_by@[k7], starts@[q] as int));
        }
        assert(aggregate_matches(
            group_by@,
            sum_columns@,
            min_columns@,
            max_columns@,
            selection@,
            agg,
            iv,
            run_bounds@,
        ));
        assert(aggregate_ok(group_by@, sum_columns@, min_columns@, max_columns@, selection@, agg));
    }
    Ok(agg)
}

/// The signed extreme of each run of each column: the minimum where
/// `take_min` holds, else the maximum; an empty run has none.
fn extreme_columns(
    columns: &Vec<Column>,
    idxs: &Vec<usize>,
    run_bounds: &Vec<(usize, usize)>,
    table_len: usize,
    take_min: bool,
) -> (r: Vec<Vec<Option<Scalar>>>)
    requires
        forall|t: int| 0 <= t < columns@.len() ==> col_len(#[trigger] columns@[t]) == table_len,
        forall|t: int| 0 <= t < columns@.len() ==> col_wf(#[trigger] columns@[t]),
        forall|q: int| 0 <= q < idxs@.len() ==> #[trigger] idxs@[q] < table_len,
        forall|q: int| 0 <= q < run_bounds@.len() ==> (#[trigger] run_bounds@[q]).0
            <= run_bounds@[q].1 <= idxs@.len(),
    ensures
        r@.len() == columns@.len(),
        forall|t: int| 0 <= t < r@.len() ==> (#[trigger] r@[t])@.len() == run_bounds@.len(),
        forall|t: int, q: int|
            #![trigger r@[t], run_bounds@[q]]
            0 <= t < columns@.len() && 0 <= q < run_bounds@.len() ==> option_scalar_matches(
                r@[t]@[q],
                run_extreme(
                    columns@[t],
                    idx_views(idxs@),
                    run_bounds@[q].0 as int,
                    run_bounds@[q].1 as int,
                    take_min,
                ),
            ),
{
    let ghost iv = idx_views(idxs@);
    let g = run_bounds.len();
    let mut out: Vec<Vec<Option<Scalar>>> = Vec::new();
    let mut k: usize = 0;
    while k < columns.len()
        invariant
            0 <= k <= columns@.len(),
            g == run_bounds@.len(),
            iv == idx_views(idxs@),
            forall|t: int| 0 <= t < columns@.len() ==> col_len(#[trigger] columns@[t])
                == table_len,
            forall|t: int| 0 <= t < columns@.len() ==> col_wf(#[trigger] columns@[t]),
            forall|q: int| 0 <= q < idxs@.len() ==> #[trigger] idxs@[q] < table_len,
            forall|q: int| 0 <= q < run_bounds@.len() ==> (#[trigger] run_bounds@[q]).0
                <= run_bounds@[q].1 <= idxs@.len(),
            out@.len() == k,
            forall|t: int| 0 <= t < k ==> (#[trigger] out@[t])@.len() == g,
            forall|t: int, q: int|
                #![trigger out@[t], run_bounds@[q]]
                0 <= t < k && 0 <= q < g ==> option_scalar_matches(
                    out@[t]@[q],
                    run_extreme(
                        columns@[t],
                        iv,
                        run_bounds@[q].0 as int,
                        run_bounds@[q].1 as int,
                        take_min,
                    ),
                ),
        decreases columns@.len() - k,
    {
        let scalars = crate::proof_exprs::col_to_scalars(&columns[k]);
        let mut col_out: Vec<Option<Scalar>> = Vec::new();
        let mut r: usize = 0;
        while r < g
            invariant
                g == run_bounds@.len(),
                iv == idx_views(idxs@),
                scalars@.len() == table_len,
                forall|q: int| 0 <= q < idxs@.len() ==> #[trigger] idxs@[q] < table_len,
                forall|q: int| 0 <= q < run_bounds@.len() ==> (#[trigger] run_bounds@[q]).0
                    <= run_bounds@[q].1 <= idxs@.len(),
                forall|q: int| 0 <= q < scalars@.len() ==> (#[trigger] scalars@[q]).wf(),
                forall|q: int| 0 <= q < scalars@.len() ==> (#[trigger] scalars@[q])@
                    == crate::proof_exprs::cell_scalar(columns@[k as int], q),
                k < columns@.len(),
                col_len(columns@[k as int]) == table_len,
                0 <= r <= g,
                col_out@.len() == r,
                forall|q: int| 0 <= q < r ==> option_scalar_matches(
                    #[trigger] col_out@[q],
                    run_extreme(
                        columns@[k as int],
                        iv,
                        run_bounds@[q].0 as int,
                        run_bounds@[q].1 as int,
                        take_min,
                    ),
                ),
            decreases g - r,
        {
            let (lo, hi) = run_bounds[r];
            let mut best: Option<Scalar> = None;
            let mut t: usize = lo;
            while t < hi
                invariant
                    iv == idx_views(idxs@),
                    scalars@.len() == table_len,
                    forall|q: int| 0 <= q < idxs@.len() ==> #[trigger] idxs@[q] < table_len,
                    lo <= t <= hi <= idxs@.len(),
                    forall|q: int| 0 <= q < scalars@.len() ==> (#[trigger] scalars@[q]).wf(),
                    forall|q: int| 0 <= q < scalars@.len() ==> (#[trigger] scalars@[q])@
                        == crate::proof_exprs::cell_scalar(columns@[k as int], q),
                    k < columns@.len(),
                    match best {
                        Some(b) => b.wf(),
                        None => true,
                    },
                    option_scalar_matches(
                        best,
                        run_extreme(columns@[k as int], iv, lo as int, t as int, take_min),
                    ),
                decreases hi - t,
            {
                let v = scalars[idxs[t]];
                best = match best {
                    None => Some(v),
                    Some(b) => {
                        let keep_new = if take_min {
                            matches!(v.signed_cmp(&b), Ordering::Less)
                        } else {
                            matches!(v.signed_cmp(&b), Ordering::Greater)
                        };
                        if keep_new {
                            Some(v)
                        } else {
                            Some(b)
                        }
                    },
                };
                t += 1;
            }
            col_out.push(best);
            r += 1;
        }
        out.push(col_out);
        k += 1;
    }
    out
}

} // verus!