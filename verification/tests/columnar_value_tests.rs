use proof_of_sql::column::{Column, ColumnType, ColumnarValue, ColumnarValueError, LiteralValue, PoSQLTimeUnit};

#[test]
fn we_can_get_column_type_of_columnar_values() {
    let column = ColumnarValue::Column(Column::Int(vec![1, 2, 3]));
    assert_eq!(column.column_type(), ColumnType::Int);

    let column = ColumnarValue::Literal(LiteralValue::Boolean(true));
    assert_eq!(column.column_type(), ColumnType::Boolean);
}

#[test]
fn we_can_transform_columnar_values_into_columns() {
    let columnar_value = ColumnarValue::Column(Column::Int(vec![1, 2, 3]));
    let column = columnar_value.into_column(3).unwrap();
    assert!(matches!(&column, Column::Int(v) if *v == vec![1, 2, 3]));

    let columnar_value = ColumnarValue::Literal(LiteralValue::Boolean(false));
    let column = columnar_value.into_column(5).unwrap();
    assert!(matches!(&column, Column::Boolean(v) if *v == vec![false; 5]));

    // Check whether it works if `num_rows` is 0
    let columnar_value = ColumnarValue::Literal(LiteralValue::TinyInt(2));
    let column = columnar_value.into_column(0).unwrap();
    assert!(matches!(&column, Column::TinyInt(v) if v.is_empty()));

    let columnar_value = ColumnarValue::Column(Column::SmallInt(vec![]));
    let column = columnar_value.into_column(0).unwrap();
    assert!(matches!(&column, Column::SmallInt(v) if v.is_empty()));
}

#[test]
fn we_cannot_transform_columnar_values_into_columns_of_different_length() {
    let columnar_value = ColumnarValue::Column(Column::Int(vec![1, 2, 3]));
    let res = columnar_value.into_column(2);
    assert!(matches!(
        res,
        Err(ColumnarValueError::ColumnLengthMismatch {
            columnar_value_length: 3,
            attempt_to_convert_length: 2,
        })
    ));

    let strings: Vec<String> = ["a", "b", "c"].iter().map(|s| s.to_string()).collect();
    let scalars: Vec<proof_of_sql::scalar::Scalar> =
        strings.iter().map(|s| proof_of_sql::scalar::hash_str(s)).collect();
    let columnar_value = ColumnarValue::Column(Column::VarChar(strings, scalars));
    let res = columnar_value.into_column(0);
    assert!(matches!(
        res,
        Err(ColumnarValueError::ColumnLengthMismatch {
            columnar_value_length: 3,
            attempt_to_convert_length: 0,
        })
    ));

    let columnar_value = ColumnarValue::Column(Column::Boolean(vec![]));
    let res = columnar_value.into_column(1);
    assert!(matches!(
        res,
        Err(ColumnarValueError::ColumnLengthMismatch {
            columnar_value_length: 0,
            attempt_to_convert_length: 1,
        })
    ));
}

#[test]
fn a_varchar_literal_expands_to_hashed_cells() {
    let columnar_value = ColumnarValue::Literal(LiteralValue::VarChar("Cat".to_string()));
    let column = columnar_value.into_column(2).unwrap();
    match column {
        Column::VarChar(strings, hashes) => {
            assert_eq!(strings, vec!["Cat".to_string(), "Cat".to_string()]);
            assert_eq!(hashes[0], proof_of_sql::scalar::hash_str("Cat"));
            assert_eq!(hashes[1], proof_of_sql::scalar::hash_str("Cat"));
        },
        _ => panic!("expected a varchar column"),
    }
}

#[test]
fn the_varchar_hash_is_a_function_of_the_string_only() {
    let a = proof_of_sql::scalar::hash_str("Cat");
    let b = proof_of_sql::scalar::hash_str("Cat");
    let c = proof_of_sql::scalar::hash_str("Dog");
    assert_eq!(a, b);
    assert_ne!(a, c);
}

#[test]
fn every_column_type_round_trips_through_its_buffer() {
    let cols = vec![
        Column::Boolean(vec![true, false]),
        Column::TinyInt(vec![-1, 2]),
        Column::SmallInt(vec![-3, 4]),
        Column::Int(vec![-5, 6]),
        Column::BigInt(vec![-7, 8]),
        Column::Int128(vec![-9, 10]),
        Column::Scalar(vec![
            proof_of_sql::scalar::Scalar::from_i64(-11),
            proof_of_sql::scalar::Scalar::from_i64(12),
        ]),
        Column::VarChar(
            vec!["x".to_string(), "y".to_string()],
            vec![
                proof_of_sql::scalar::hash_str("x"),
                proof_of_sql::scalar::hash_str("y"),
            ],
        ),
        Column::TimestampTZ(PoSQLTimeUnit::Second, 0, vec![-13, 14]),
    ];
    for c in &cols {
        assert_eq!(c.len(), 2);
    }
    assert!(matches!(&cols[4], Column::BigInt(v) if *v == vec![-7, 8]));
    assert!(matches!(&cols[8], Column::TimestampTZ(PoSQLTimeUnit::Second, 0, v) if *v == vec![-13, 14]));
}
