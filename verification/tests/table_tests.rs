use proof_of_sql::group_by::OwnedColumn;
use proof_of_sql::identifier::Identifier;
use proof_of_sql::query::{OwnedTable, OwnedTableError};
use proof_of_sql::transcript::{u64_le_bytes, Transcript};

#[test]
fn an_owned_table_accepts_equal_length_unique_columns() {
    let t = OwnedTable::try_new(vec![
        (Identifier::try_new("a").unwrap(), OwnedColumn::BigInt(vec![1, 2])),
        (Identifier::try_new("b").unwrap(), OwnedColumn::Boolean(vec![true, false])),
    ])
    .unwrap();
    assert_eq!(t.num_columns(), 2);
}

#[test]
fn an_owned_table_rejects_unequal_lengths() {
    let r = OwnedTable::try_new(vec![
        (Identifier::try_new("a").unwrap(), OwnedColumn::BigInt(vec![1, 2])),
        (Identifier::try_new("b").unwrap(), OwnedColumn::Boolean(vec![true])),
    ]);
    assert!(matches!(r, Err(OwnedTableError::ColumnLengthMismatch)));
}

#[test]
fn an_owned_table_rejects_duplicate_identifiers() {
    let r = OwnedTable::try_new(vec![
        (Identifier::try_new("a").unwrap(), OwnedColumn::BigInt(vec![1])),
        (Identifier::try_new("A").unwrap(), OwnedColumn::BigInt(vec![2])),
    ]);
    assert!(matches!(r, Err(OwnedTableError::DuplicateIdentifiers)));
}

#[test]
fn transcript_challenges_are_deterministic() {
    let mut t1 = Transcript::new(b"domain");
    let mut t2 = Transcript::new(b"domain");
    t1.append_message(b"m", &[1, 2, 3]);
    t2.append_message(b"m", &[1, 2, 3]);
    assert_eq!(t1.challenge_bytes_vec(b"c", 32), t2.challenge_bytes_vec(b"c", 32));

    let mut t3 = Transcript::new(b"domain");
    t3.append_message(b"m", &[1, 2, 4]);
    assert_ne!(
        {
            let mut t = Transcript::new(b"domain");
            t.append_message(b"m", &[1, 2, 3]);
            t.challenge_bytes_vec(b"c", 32)
        },
        t3.challenge_bytes_vec(b"c", 32)
    );
}

#[test]
fn u64_values_encode_little_endian() {
    assert_eq!(u64_le_bytes(0x0102030405060708), vec![8, 7, 6, 5, 4, 3, 2, 1]);
    assert_eq!(u64_le_bytes(0), vec![0; 8]);
}
