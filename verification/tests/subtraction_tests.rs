use proof_of_sql::commitment::{compute_commitment, Commitment};
use proof_of_sql::encode::{ZigZag, U256};
use proof_of_sql::scalar::Scalar;
use proof_of_sql::subtraction::{GeneralColumn, SafeIntColumn, SubtractionProof};
use proof_of_sql::transcript::Transcript;

fn int_column(values: &[i64], log_max: u8) -> SafeIntColumn {
    SafeIntColumn {
        values: values.iter().map(|v| Scalar::from_i64(*v)).collect(),
        log_max,
    }
}

fn commit(values: &[i64], log_max: u8) -> Commitment {
    let scalars: Vec<Scalar> = values.iter().map(|v| Scalar::from_i64(*v)).collect();
    compute_commitment(&scalars, Some(log_max))
}

#[test]
fn commitments_are_homomorphic() {
    let a = vec![3i64, -1, 7, 0];
    let b = vec![10i64, 2, -5, 4];
    let sum: Vec<i64> = a.iter().zip(b.iter()).map(|(x, y)| x + y).collect();
    let diff: Vec<i64> = a.iter().zip(b.iter()).map(|(x, y)| x - y).collect();
    let c_a = commit(&a, 4);
    let c_b = commit(&b, 4);
    let c_sum = commit(&sum, 5);
    let c_diff = commit(&diff, 5);
    assert!(c_a.add_commitment(&c_b).commitment.eq_element(&c_sum.commitment));
    assert!(c_a.sub_commitment(&c_b).commitment.eq_element(&c_diff.commitment));
}

#[test]
fn we_can_prove_and_verify_a_subtraction() {
    let a = vec![10i64, 20, 30];
    let b = vec![1i64, 2, 3];
    let d = vec![9i64, 18, 27];
    let c_a = commit(&a, 6);
    let c_b = commit(&b, 3);

    let mut transcript = Transcript::new(b"subtraction_test");
    let proof = SubtractionProof::prove(
        &mut transcript,
        GeneralColumn::SafeIntColumn(int_column(&a, 6)),
        GeneralColumn::SafeIntColumn(int_column(&b, 3)),
        GeneralColumn::SafeIntColumn(int_column(&d, 7)),
        (c_a, c_b),
    );

    let mut transcript = Transcript::new(b"subtraction_test");
    assert!(proof.verify(&mut transcript, (c_a, c_b)).is_ok());
    assert_eq!(proof.get_output_commitments().length, 3);
}

#[test]
fn we_reject_a_subtraction_against_the_wrong_commitments() {
    let a = vec![10i64, 20, 30];
    let b = vec![1i64, 2, 3];
    let d = vec![9i64, 18, 27];
    let c_a = commit(&a, 6);
    let c_b = commit(&b, 3);

    let mut transcript = Transcript::new(b"subtraction_test");
    let proof = SubtractionProof::prove(
        &mut transcript,
        GeneralColumn::SafeIntColumn(int_column(&a, 6)),
        GeneralColumn::SafeIntColumn(int_column(&b, 3)),
        GeneralColumn::SafeIntColumn(int_column(&d, 7)),
        (c_a, c_b),
    );

    // swap the inputs: the recomputed difference no longer matches
    let mut transcript = Transcript::new(b"subtraction_test");
    assert!(proof.verify(&mut transcript, (c_b, c_a)).is_err());
}

#[test]
fn zigzag_encoding_round_trips() {
    for v in [0i64, 1, 2, 5, 1000, -1, -2, -7, -123456] {
        let s = Scalar::from_i64(v);
        let encoded: U256 = s.zigzag();
        let decoded: Scalar = encoded.zigzag();
        assert_eq!(decoded, s);
    }
}

#[test]
fn zigzag_encoding_orders_by_magnitude() {
    let one: U256 = Scalar::from_i64(1).zigzag();
    let minus_one: U256 = Scalar::from_i64(-1).zigzag();
    let two: U256 = Scalar::from_i64(2).zigzag();
    assert_eq!(one, U256 { low: 2, high: 0 });
    assert_eq!(minus_one, U256 { low: 3, high: 0 });
    assert_eq!(two, U256 { low: 4, high: 0 });
}
