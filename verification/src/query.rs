//! Query results and their error taxonomy: the verified outcome of a
//! query is an owned table of named columns together with a verification
//! hash drawn from the transcript's final state.
use vstd::prelude::*;
use crate::identifier::{Identifier, ParseError};
use crate::group_by::{OwnedColumn, owned_col_len};
use crate::builders::ProofError;

verus! {

/// Errors from building an owned table.
#[derive(Debug, Clone, Copy)]
pub enum OwnedTableError {
    /// The columns have differing lengths.
    ColumnLengthMismatch,
    /// Two columns share an identifier.
    DuplicateIdentifiers,
}

/// An order-preserving mapping from column identifier to an owned column:
/// all columns share one length and identifiers are unique.
pub struct OwnedTable {
    columns: Vec<(Identifier, OwnedColumn)>,
}

impl OwnedTable {
    /// The named columns in insertion order.
    pub closed spec fn cols_seq(&self) -> Seq<(Identifier, OwnedColumn)> {
        self.columns@
    }

    /// All columns share one length and identifiers are unique.
    pub open spec fn wf(&self) -> bool {
        &&& forall|i: int, j: int| 0 <= i < self.cols_seq().len() && 0 <= j
            < self.cols_seq().len() ==> owned_col_len((#[trigger] self.cols_seq()[i]).1)
            == owned_col_len((#[trigger] self.cols_seq()[j]).1)
        &&& forall|i: int, j: int| 0 <= i < j < self.cols_seq().len()
            ==> (#[trigger] self.cols_seq()[i]).0@ != (#[trigger] self.cols_seq()[j]).0@
    }

    /// Accepts the columns exactly when they share one length and no
    /// identifier repeats.
    pub fn try_new(columns: Vec<(Identifier, OwnedColumn)>) -> (r: Result<
        OwnedTable,
        OwnedTableError,
    >)
        ensures
            match r {
                Ok(t) => t.cols_seq() == columns@ && t.wf(),
                Err(_) => !(forall|i: int, j: int| 0 <= i < columns@.len() && 0 <= j
                    < columns@.len() ==> owned_col_len((#[trigger] columns@[i]).1)
                    == owned_col_len((#[trigger] columns@[j]).1)) || !(forall|i: int, j: int|
                    0 <= i < j < columns@.len() ==> (#[trigger] columns@[i]).0@
                    != (#[trigger] columns@[j]).0@),
            },
    {
        let n = columns.len();
        let mut i: usize = 0;
        while i < n
            invariant
                n == columns@.len(),
                0 <= i <= n,
                forall|a: int, b: int| 0 <= a < i && 0 <= b < i ==> owned_col_len(
                    (#[trigger] columns@[a]).1,
                ) == owned_col_len((#[trigger] columns@[b]).1),
                forall|a: int, b: int| 0 <= a < b < i ==> (#[trigger] columns@[a]).0@
                    != (#[trigger] columns@[b]).0@,
            decreases n - i,
        {
            if i > 0 && columns[i].1.len() != columns[0].1.len() {
                return Err(OwnedTableError::ColumnLengthMismatch);
            }
            let mut j: usize = 0;
            while j < i
                invariant
                    n == columns@.len(),
                    0 <= j <= i < n,
                    forall|b: int| 0 <= b < j ==> (#[trigger] columns@[b]).0@
                        != columns@[i as int].0@,
                decreases i - j,
            {
                if &columns[j].0 == &columns[i].0 {
                    return Err(OwnedTableError::DuplicateIdentifiers);
                }
                j += 1;
            }
            i += 1;
        }
        Ok(OwnedTable { columns })
    }

    /// The number of columns.
    pub fn num_columns(&self) -> (r: usize)
        ensures
            r == self.cols_seq().len(),
    {
        self.columns.len()
    }

    /// The column at the given position.
    pub fn column_at(&self, i: usize) -> (r: &(Identifier, OwnedColumn))
        requires
            i < self.cols_seq().len(),
        ensures
            *r == self.cols_seq()[i as int],
    {
        &self.columns[i]
    }
}

/// Verifiable query errors: decode-level failures that are not
/// verification failures, and the single rejection that stands for every
/// failed cryptographic check.
#[derive(Debug, Clone, Copy)]
pub enum QueryError {
    /// The result was too large for its type; not a verification failure.
    Overflow,
    /// A result string was not valid text; not a verification failure.
    InvalidString,
    /// Some other decoding failure.
    MiscellaneousDecodingError,
    /// Some other evaluation failure.
    MiscellaneousEvaluationError,
    /// The proof failed to verify.
    ProofError { source: ProofError },
    /// The table data was invalid.
    InvalidTable { source: OwnedTableError },
    /// The number of columns was invalid.
    InvalidColumnCount,
}

impl QueryError {
    /// A short description of the error.
    pub fn message(&self) -> &'static str {
        match self {
            QueryError::Overflow => "overflow error",
            QueryError::InvalidString => "string decode error",
            QueryError::MiscellaneousDecodingError => "miscellaneous decoding error",
            QueryError::MiscellaneousEvaluationError => "miscellaneous evaluation error",
            QueryError::ProofError { source: _ } => "proof verification error",
            QueryError::InvalidTable { source: _ } => "invalid table",
            QueryError::InvalidColumnCount => "invalid number of columns",
        }
    }
}

/// The verified results of a query along with the evidence that
/// verification has been run: a 32-byte hash of the transcript's final
/// state.
pub struct QueryData {
    pub table: OwnedTable,
    pub verification_hash: [u8; 32],
}

/// A timestamp paired with its unit, counted from the epoch.
#[derive(Clone, Copy, Debug)]
pub struct Time {
    /// The count of time units since the epoch.
    pub timestamp: i64,
    /// The unit of this time.
    pub unit: crate::column::PoSQLTimeUnit,
}

/// Errors from converting record-batch data into columns.
#[derive(Debug, Clone)]
pub enum RecordBatchToColumnsError {
    /// An array element could not be converted to a column value.
    ArrowArrayToColumnConversionError { message: &'static str },
    /// A record batch name is not a valid identifier.
    FieldParseFail { source: ParseError },
}

/// Errors from appending record-batch data to a table commitment.
#[derive(Debug, Clone)]
pub enum AppendRecordBatchTableCommitmentError {
    /// The batch's columns do not match the commitment's columns.
    ColumnCommitmentsMismatch { message: &'static str },
    /// The batch could not be converted to columns.
    ArrowBatchToColumnError { source: RecordBatchToColumnsError },
}

/// A commitment evaluation proof meant only for tests of the surrounding
/// machinery: it carries no data and proves nothing.
pub struct TestEvaluationProof {}

/// The error type of the test evaluation proof; it has no values.
pub enum TestErrorType {
    /// The single unused variant.
    Unreachable,
}

} // verus!
