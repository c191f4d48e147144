use core::cmp::Ordering;
use proof_of_sql::column::Column;
use proof_of_sql::group_by::{
    compare_indexes_by_columns,
    compare_indexes_by_owned_columns,
    OwnedColumn,
};
use proof_of_sql::scalar::{hash_str, Scalar};

fn varchar_column(strings: &[&str]) -> Column {
    let s: Vec<String> = strings.iter().map(|x| x.to_string()).collect();
    let h: Vec<Scalar> = strings.iter().map(|x| hash_str(x)).collect();
    Column::VarChar(s, h)
}

#[test]
fn we_can_compare_indexes_by_columns_with_no_columns() {
    let columns: Vec<Column> = vec![];
    assert_eq!(compare_indexes_by_columns(&columns, 0, 1), Ordering::Equal);
    assert_eq!(compare_indexes_by_columns(&columns, 1, 2), Ordering::Equal);
    assert_eq!(compare_indexes_by_columns(&columns, 3, 2), Ordering::Equal);
}

#[test]
fn we_can_compare_indexes_by_columns_for_bigint_columns() {
    let slice_a = vec![55, 44, 66, 66, 66, 77, 66, 66, 66, 66];
    let slice_b = vec![22, 44, 11, 44, 33, 22, 22, 11, 22, 22];
    let slice_c = vec![11, 55, 11, 44, 77, 11, 22, 55, 11, 22];
    let column_a = Column::BigInt(slice_a.clone());
    let column_b = Column::BigInt(slice_b.clone());
    let column_c = Column::BigInt(slice_c.clone());

    let columns = vec![column_a.clone()];
    assert_eq!(compare_indexes_by_columns(&columns, 0, 1), Ordering::Greater);
    assert_eq!(compare_indexes_by_columns(&columns, 1, 2), Ordering::Less);
    assert_eq!(compare_indexes_by_columns(&columns, 2, 3), Ordering::Equal);
    assert_eq!(compare_indexes_by_columns(&columns, 2, 1), Ordering::Greater);
    assert_eq!(compare_indexes_by_columns(&columns, 1, 0), Ordering::Less);
    let columns = vec![column_a.clone(), column_b.clone()];
    assert_eq!(compare_indexes_by_columns(&columns, 0, 1), Ordering::Greater);
    assert_eq!(compare_indexes_by_columns(&columns, 1, 2), Ordering::Less);
    assert_eq!(compare_indexes_by_columns(&columns, 2, 3), Ordering::Less);
    assert_eq!(compare_indexes_by_columns(&columns, 3, 4), Ordering::Greater);
    assert_eq!(compare_indexes_by_columns(&columns, 2, 7), Ordering::Equal);
    let columns = vec![column_a, column_b, column_c];
    assert_eq!(compare_indexes_by_columns(&columns, 0, 1), Ordering::Greater);
    assert_eq!(compare_indexes_by_columns(&columns, 1, 2), Ordering::Less);
    assert_eq!(compare_indexes_by_columns(&columns, 2, 3), Ordering::Less);
    assert_eq!(compare_indexes_by_columns(&columns, 3, 4), Ordering::Greater);
    assert_eq!(compare_indexes_by_columns(&columns, 2, 7), Ordering::Less);
    assert_eq!(compare_indexes_by_columns(&columns, 6, 9), Ordering::Equal);
}

#[test]
fn we_can_compare_indexes_by_columns_for_mixed_columns() {
    let slice_a = ["55", "44", "66", "66", "66", "77", "66", "66", "66", "66"];
    let slice_b = vec![22, 44, 11, 44, 33, 22, 22, 11, 22, 22];
    let slice_c = vec![11, 55, 11, 44, 77, 11, 22, 55, 11, 22];
    let column_a = varchar_column(&slice_a);
    let column_b = Column::Int128(slice_b);
    let column_c = Column::BigInt(slice_c);

    let columns = vec![column_a.clone()];
    assert_eq!(compare_indexes_by_columns(&columns, 0, 1), Ordering::Greater);
    assert_eq!(compare_indexes_by_columns(&columns, 1, 2), Ordering::Less);
    assert_eq!(compare_indexes_by_columns(&columns, 2, 3), Ordering::Equal);
    assert_eq!(compare_indexes_by_columns(&columns, 2, 1), Ordering::Greater);
    assert_eq!(compare_indexes_by_columns(&columns, 1, 0), Ordering::Less);
    let columns = vec![column_a.clone(), column_b.clone()];
    assert_eq!(compare_indexes_by_columns(&columns, 0, 1), Ordering::Greater);
    assert_eq!(compare_indexes_by_columns(&columns, 1, 2), Ordering::Less);
    assert_eq!(compare_indexes_by_columns(&columns, 2, 3), Ordering::Less);
    assert_eq!(compare_indexes_by_columns(&columns, 3, 4), Ordering::Greater);
    assert_eq!(compare_indexes_by_columns(&columns, 2, 7), Ordering::Equal);
    let columns = vec![column_a, column_b, column_c];
    assert_eq!(compare_indexes_by_columns(&columns, 0, 1), Ordering::Greater);
    assert_eq!(compare_indexes_by_columns(&columns, 1, 2), Ordering::Less);
    assert_eq!(compare_indexes_by_columns(&columns, 2, 3), Ordering::Less);
    assert_eq!(compare_indexes_by_columns(&columns, 3, 4), Ordering::Greater);
    assert_eq!(compare_indexes_by_columns(&columns, 2, 7), Ordering::Less);
    assert_eq!(compare_indexes_by_columns(&columns, 6, 9), Ordering::Equal);
}

#[test]
fn we_can_compare_indexes_by_owned_columns_for_mixed_columns() {
    let slice_a: Vec<String> = ["55", "44", "66", "66", "66", "77", "66", "66", "66", "66"]
        .into_iter()
        .map(Into::into)
        .collect();
    let slice_b = vec![22, 44, 11, 44, 33, 22, 22, 11, 22, 22];
    let slice_c = vec![11, 55, 11, 44, 77, 11, 22, 55, 11, 22];
    let column_a = OwnedColumn::VarChar(slice_a);
    let column_b = OwnedColumn::Int128(slice_b);
    let column_c = OwnedColumn::BigInt(slice_c);

    let columns: Vec<&OwnedColumn> = vec![&column_a];
    assert_eq!(compare_indexes_by_owned_columns(&columns, 0, 1), Ordering::Greater);
    assert_eq!(compare_indexes_by_owned_columns(&columns, 1, 2), Ordering::Less);
    assert_eq!(compare_indexes_by_owned_columns(&columns, 2, 3), Ordering::Equal);
    assert_eq!(compare_indexes_by_owned_columns(&columns, 2, 1), Ordering::Greater);
    assert_eq!(compare_indexes_by_owned_columns(&columns, 1, 0), Ordering::Less);
    let columns: Vec<&OwnedColumn> = vec![&column_a, &column_b];
    assert_eq!(compare_indexes_by_owned_columns(&columns, 0, 1), Ordering::Greater);
    assert_eq!(compare_indexes_by_owned_columns(&columns, 1, 2), Ordering::Less);
    assert_eq!(compare_indexes_by_owned_columns(&columns, 2, 3), Ordering::Less);
    assert_eq!(compare_indexes_by_owned_columns(&columns, 3, 4), Ordering::Greater);
    assert_eq!(compare_indexes_by_owned_columns(&columns, 2, 7), Ordering::Equal);
    let columns: Vec<&OwnedColumn> = vec![&column_a, &column_b, &column_c];
    assert_eq!(compare_indexes_by_owned_columns(&columns, 0, 1), Ordering::Greater);
    assert_eq!(compare_indexes_by_owned_columns(&columns, 1, 2), Ordering::Less);
    assert_eq!(compare_indexes_by_owned_columns(&columns, 2, 3), Ordering::Less);
    assert_eq!(compare_indexes_by_owned_columns(&columns, 3, 4), Ordering::Greater);
    assert_eq!(compare_indexes_by_owned_columns(&columns, 2, 7), Ordering::Less);
    assert_eq!(compare_indexes_by_owned_columns(&columns, 6, 9), Ordering::Equal);
}

#[test]
fn we_can_compare_indexes_by_columns_for_scalar_columns() {
    let slice_a = vec![55, 44, 66, 66, 66, 77, 66, 66, 66, 66];
    let slice_b = vec![22, 44, 11, 44, 33, 22, 22, 11, 22, 22];
    let slice_c = vec![11, 55, 11, 44, 77, 11, 22, 55, 11, 22];
    let scals_a: Vec<Scalar> = slice_a.iter().map(|x| Scalar::from_i64(*x)).collect();
    let column_a = Column::Scalar(scals_a);
    let column_b = Column::Int128(slice_b);
    let column_c = Column::BigInt(slice_c);

    let columns = vec![column_a.clone()];
    assert_eq!(compare_indexes_by_columns(&columns, 0, 1), Ordering::Greater);
    assert_eq!(compare_indexes_by_columns(&columns, 1, 2), Ordering::Less);
    assert_eq!(compare_indexes_by_columns(&columns, 2, 3), Ordering::Equal);
    assert_eq!(compare_indexes_by_columns(&columns, 2, 1), Ordering::Greater);
    assert_eq!(compare_indexes_by_columns(&columns, 1, 0), Ordering::Less);
    let columns = vec![column_a.clone(), column_b.clone()];
    assert_eq!(compare_indexes_by_columns(&columns, 0, 1), Ordering::Greater);
    assert_eq!(compare_indexes_by_columns(&columns, 1, 2), Ordering::Less);
    assert_eq!(compare_indexes_by_columns(&columns, 2, 3), Ordering::Less);
    assert_eq!(compare_indexes_by_columns(&columns, 3, 4), Ordering::Greater);
    assert_eq!(compare_indexes_by_columns(&columns, 2, 7), Ordering::Equal);
    let columns = vec![column_a, column_b, column_c];
    assert_eq!(compare_indexes_by_columns(&columns, 0, 1), Ordering::Greater);
    assert_eq!(compare_indexes_by_columns(&columns, 1, 2), Ordering::Less);
    assert_eq!(compare_indexes_by_columns(&columns, 2, 3), Ordering::Less);
    assert_eq!(compare_indexes_by_columns(&columns, 3, 4), Ordering::Greater);
    assert_eq!(compare_indexes_by_columns(&columns, 2, 7), Ordering::Less);
    assert_eq!(compare_indexes_by_columns(&columns, 6, 9), Ordering::Equal);
}
