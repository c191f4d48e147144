use proof_of_sql::column::Column;
use proof_of_sql::group_by::aggregate_columns;
use proof_of_sql::scalar::{hash_str, Scalar};

fn varchar_column(strings: &[&str]) -> Column {
    let s: Vec<String> = strings.iter().map(|x| x.to_string()).collect();
    let h: Vec<Scalar> = strings.iter().map(|x| hash_str(x)).collect();
    Column::VarChar(s, h)
}

#[test]
fn we_can_aggregate_empty_columns() {
    let column_a = Column::BigInt(vec![]);
    let column_b = varchar_column(&[]);
    let column_c = Column::Int128(vec![]);
    let column_d = Column::Scalar(vec![]);
    let group_by = vec![column_a, column_b];
    let sum_columns = vec![column_c, column_d];
    let selection = vec![];
    let aggregate_result =
        aggregate_columns(&group_by, &sum_columns, &vec![], &vec![], &selection)
            .expect("Aggregation should succeed");
    assert_eq!(aggregate_result.group_by_columns.len(), 2);
    assert!(matches!(&aggregate_result.group_by_columns[0], Column::BigInt(v) if v.is_empty()));
    assert_eq!(aggregate_result.sum_columns, vec![Vec::<Scalar>::new(), Vec::<Scalar>::new()]);
    assert_eq!(aggregate_result.count_column, Vec::<u64>::new());
}

#[test]
fn we_can_aggregate_columns_with_empty_group_by_and_no_rows_selected() {
    let slice_c = vec![100, 101, 102, 103, 104, 105, 106, 107, 108, 109, 110, 111];
    let slice_d: Vec<i64> = vec![200, 201, 202, 203, 204, 205, 206, 207, 208, 209, 210, 211];
    let selection = vec![false; 12];
    let scals_d: Vec<Scalar> = slice_d.iter().map(|v| Scalar::from_i64(*v)).collect();
    let column_c = Column::Int128(slice_c);
    let column_d = Column::Scalar(scals_d);
    let group_by = vec![];
    let sum_columns = vec![column_c.clone(), column_d.clone()];
    let max_columns = vec![column_c.clone(), column_d.clone()];
    let min_columns = vec![column_c, column_d];
    let aggregate_result =
        aggregate_columns(&group_by, &sum_columns, &min_columns, &max_columns, &selection)
            .expect("Aggregation should succeed");
    assert_eq!(aggregate_result.group_by_columns.len(), 0);
    assert_eq!(aggregate_result.sum_columns, vec![Vec::<Scalar>::new(), Vec::<Scalar>::new()]);
    assert_eq!(aggregate_result.count_column, Vec::<u64>::new());
    assert_eq!(
        aggregate_result.max_columns,
        vec![Vec::<Option<Scalar>>::new(), Vec::<Option<Scalar>>::new()]
    );
    assert_eq!(
        aggregate_result.min_columns,
        vec![Vec::<Option<Scalar>>::new(), Vec::<Option<Scalar>>::new()]
    );
}

#[test]
fn we_can_aggregate_columns_with_empty_group_by() {
    let slice_c = vec![100, 101, 102, 103, 104, 105, 106, 107, 108, 109, 110, 111];
    let slice_d: Vec<i64> = vec![200, 201, 202, 203, 204, 205, 206, 207, 208, 209, 210, 211];
    let selection = vec![
        false, true, true, true, true, true, true, true, true, true, true, true,
    ];
    let scals_d: Vec<Scalar> = slice_d.iter().map(|v| Scalar::from_i64(*v)).collect();
    let column_c = Column::Int128(slice_c);
    let column_d = Column::Scalar(scals_d);
    let group_by = vec![];
    let sum_columns = vec![column_c.clone(), column_d.clone()];
    let max_columns = vec![column_c.clone(), column_d.clone()];
    let min_columns = vec![column_c, column_d];
    let aggregate_result =
        aggregate_columns(&group_by, &sum_columns, &min_columns, &max_columns, &selection)
            .expect("Aggregation should succeed");
    let expected_sum_result = vec![
        vec![Scalar::from_i64(
            101 + 102 + 103 + 104 + 105 + 106 + 107 + 108 + 109 + 110 + 111,
        )],
        vec![Scalar::from_i64(
            201 + 202 + 203 + 204 + 205 + 206 + 207 + 208 + 209 + 210 + 211,
        )],
    ];
    let expected_max_result = vec![
        vec![Some(Scalar::from_i64(111))],
        vec![Some(Scalar::from_i64(211))],
    ];
    let expected_min_result = vec![
        vec![Some(Scalar::from_i64(101))],
        vec![Some(Scalar::from_i64(201))],
    ];
    let expected_count_result: Vec<u64> = vec![11];
    assert_eq!(aggregate_result.group_by_columns.len(), 0);
    assert_eq!(aggregate_result.sum_columns, expected_sum_result);
    assert_eq!(aggregate_result.count_column, expected_count_result);
    assert_eq!(aggregate_result.max_columns, expected_max_result);
    assert_eq!(aggregate_result.min_columns, expected_min_result);
}

#[test]
fn we_can_aggregate_columns() {
    let slice_a = vec![3, 3, 3, 2, 2, 1, 1, 2, 2, 3, 3, 3];
    let slice_b = [
        "Cat", "Cat", "Dog", "Cat", "Dog", "Cat", "Dog", "Cat", "Dog", "Cat", "Dog", "Cat",
    ];
    let slice_c = vec![100, 101, 102, 103, 104, 105, 106, 107, 108, 109, 110, 111];
    let slice_d: Vec<i64> = vec![200, 201, 202, 203, 204, 205, 206, 207, 208, 209, 210, 211];
    let selection = vec![
        false, true, true, true, true, true, true, true, true, true, true, true,
    ];
    let scals_d: Vec<Scalar> = slice_d.iter().map(|v| Scalar::from_i64(*v)).collect();
    let column_a = Column::BigInt(slice_a);
    let column_b = varchar_column(&slice_b);
    let column_c = Column::Int128(slice_c);
    let column_d = Column::Scalar(scals_d);
    let group_by = vec![column_a, column_b];
    let sum_columns = vec![column_c.clone(), column_d.clone()];
    let max_columns = vec![column_c.clone(), column_d.clone()];
    let min_columns = vec![column_c, column_d];
    let aggregate_result =
        aggregate_columns(&group_by, &sum_columns, &min_columns, &max_columns, &selection)
            .expect("Aggregation should succeed");
    assert!(matches!(
        &aggregate_result.group_by_columns[0],
        Column::BigInt(v) if *v == vec![1, 1, 2, 2, 3, 3]
    ));
    assert!(matches!(
        &aggregate_result.group_by_columns[1],
        Column::VarChar(s, _) if *s == vec!["Cat", "Dog", "Cat", "Dog", "Cat", "Dog"]
    ));
    let expected_sum_result = vec![
        vec![
            Scalar::from_i64(105),
            Scalar::from_i64(106),
            Scalar::from_i64(103 + 107),
            Scalar::from_i64(104 + 108),
            Scalar::from_i64(101 + 109 + 111),
            Scalar::from_i64(102 + 110),
        ],
        vec![
            Scalar::from_i64(205),
            Scalar::from_i64(206),
            Scalar::from_i64(203 + 207),
            Scalar::from_i64(204 + 208),
            Scalar::from_i64(201 + 209 + 211),
            Scalar::from_i64(202 + 210),
        ],
    ];
    let expected_max_result = vec![
        vec![
            Some(Scalar::from_i64(105)),
            Some(Scalar::from_i64(106)),
            Some(Scalar::from_i64(107)),
            Some(Scalar::from_i64(108)),
            Some(Scalar::from_i64(111)),
            Some(Scalar::from_i64(110)),
        ],
        vec![
            Some(Scalar::from_i64(205)),
            Some(Scalar::from_i64(206)),
            Some(Scalar::from_i64(207)),
            Some(Scalar::from_i64(208)),
            Some(Scalar::from_i64(211)),
            Some(Scalar::from_i64(210)),
        ],
    ];
    let expected_min_result = vec![
        vec![
            Some(Scalar::from_i64(105)),
            Some(Scalar::from_i64(106)),
            Some(Scalar::from_i64(103)),
            Some(Scalar::from_i64(104)),
            Some(Scalar::from_i64(101)),
            Some(Scalar::from_i64(102)),
        ],
        vec![
            Some(Scalar::from_i64(205)),
            Some(Scalar::from_i64(206)),
            Some(Scalar::from_i64(203)),
            Some(Scalar::from_i64(204)),
            Some(Scalar::from_i64(201)),
            Some(Scalar::from_i64(202)),
        ],
    ];
    let expected_count_result: Vec<u64> = vec![1, 1, 2, 2, 3, 2];
    assert_eq!(aggregate_result.sum_columns, expected_sum_result);
    assert_eq!(aggregate_result.count_column, expected_count_result);
    assert_eq!(aggregate_result.max_columns, expected_max_result);
    assert_eq!(aggregate_result.min_columns, expected_min_result);
}

#[test]
fn we_reject_aggregation_of_mismatched_lengths() {
    let group_by = vec![Column::BigInt(vec![1, 2])];
    let sum_columns = vec![Column::BigInt(vec![1, 2, 3])];
    let selection = vec![true, true];
    assert!(aggregate_columns(&group_by, &sum_columns, &vec![], &vec![], &selection).is_err());
}

#[test]
fn negative_values_take_part_in_signed_minima() {
    let values = Column::BigInt(vec![100, -101, 102, -103]);
    let selection = vec![true, true, true, true];
    let result = aggregate_columns(
        &vec![],
        &vec![],
        &vec![values.clone()],
        &vec![values],
        &selection,
    )
    .expect("Aggregation should succeed");
    assert_eq!(result.min_columns, vec![vec![Some(Scalar::from_i64(-103))]]);
    assert_eq!(result.max_columns, vec![vec![Some(Scalar::from_i64(102))]]);
}
