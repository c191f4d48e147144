use proof_of_sql::polynomial::{
    compute_truncated_lagrange_basis_inner_product,
    compute_truncated_lagrange_basis_inner_product_scalar,
    compute_truncated_lagrange_basis_sum,
    compute_truncated_lagrange_basis_sum_scalar,
};
use proof_of_sql::scalar::Scalar;

fn scalars(values: &[i64]) -> Vec<Scalar> {
    values.iter().map(|v| Scalar::from_i64(*v)).collect()
}

#[test]
fn compute_truncated_lagrange_basis_sum_gives_correct_values_with_0_variables() {
    let point: Vec<Scalar> = vec![];
    assert_eq!(
        compute_truncated_lagrange_basis_sum_scalar(1, &point),
        Scalar::from_u64(1)
    );
    assert_eq!(
        compute_truncated_lagrange_basis_sum_scalar(0, &point),
        Scalar::from_u64(0)
    );
}

#[test]
fn compute_truncated_lagrange_basis_sum_gives_correct_values_with_1_variables() {
    let point = scalars(&[2]);
    assert_eq!(
        compute_truncated_lagrange_basis_sum_scalar(2, &point),
        Scalar::from_u64(1) // This is (1-2) + (2)
    );
    assert_eq!(
        compute_truncated_lagrange_basis_sum_scalar(1, &point),
        Scalar::from_u64(1).neg() // This is (1-2)
    );
    assert_eq!(
        compute_truncated_lagrange_basis_sum_scalar(0, &point),
        Scalar::from_u64(0)
    );
}

#[test]
fn compute_truncated_lagrange_basis_sum_gives_correct_values_with_2_variables() {
    let point = scalars(&[2, 5]);
    assert_eq!(
        compute_truncated_lagrange_basis_sum_scalar(4, &point),
        Scalar::from_u64(1) // This is (1-2)(1-5)+(2)(1-5)+(1-2)(5)+(2)(5)
    );
    assert_eq!(
        compute_truncated_lagrange_basis_sum_scalar(3, &point),
        Scalar::from_u64(9).neg() // This is (1-2)(1-5)+(2)(1-5)+(1-2)(5)
    );
    assert_eq!(
        compute_truncated_lagrange_basis_sum_scalar(2, &point),
        Scalar::from_u64(4).neg() // This is (1-2)(1-5)+(2)(1-5)
    );
    assert_eq!(
        compute_truncated_lagrange_basis_sum_scalar(1, &point),
        Scalar::from_u64(4) // This is (1-2)(1-5)
    );
    assert_eq!(
        compute_truncated_lagrange_basis_sum_scalar(0, &point),
        Scalar::from_u64(0)
    );
}

#[test]
fn compute_truncated_lagrange_basis_sum_gives_correct_values_with_3_variables() {
    let point = scalars(&[2, 5, 7]);
    assert_eq!(compute_truncated_lagrange_basis_sum_scalar(8, &point), Scalar::from_u64(1));
    assert_eq!(
        compute_truncated_lagrange_basis_sum_scalar(7, &point),
        Scalar::from_u64(69).neg()
    );
    assert_eq!(
        compute_truncated_lagrange_basis_sum_scalar(6, &point),
        Scalar::from_u64(34).neg()
    );
    assert_eq!(compute_truncated_lagrange_basis_sum_scalar(5, &point), Scalar::from_u64(22));
    assert_eq!(
        compute_truncated_lagrange_basis_sum_scalar(4, &point),
        Scalar::from_u64(6).neg()
    );
    assert_eq!(compute_truncated_lagrange_basis_sum_scalar(3, &point), Scalar::from_u64(54));
    assert_eq!(compute_truncated_lagrange_basis_sum_scalar(2, &point), Scalar::from_u64(24));
    assert_eq!(
        compute_truncated_lagrange_basis_sum_scalar(1, &point),
        Scalar::from_u64(24).neg()
    );
    assert_eq!(compute_truncated_lagrange_basis_sum_scalar(0, &point), Scalar::from_u64(0));
}

#[test]
fn compute_truncated_lagrange_basis_sum_gives_correct_values_with_3_variables_using_i32() {
    let point: Vec<i64> = vec![2, 5, 7];
    assert_eq!(compute_truncated_lagrange_basis_sum(8, &point), 1);
    assert_eq!(compute_truncated_lagrange_basis_sum(7, &point), -69);
    assert_eq!(compute_truncated_lagrange_basis_sum(6, &point), -34);
    assert_eq!(compute_truncated_lagrange_basis_sum(5, &point), 22);
    assert_eq!(compute_truncated_lagrange_basis_sum(4, &point), -6);
    assert_eq!(compute_truncated_lagrange_basis_sum(3, &point), 54);
    assert_eq!(compute_truncated_lagrange_basis_sum(2, &point), 24);
    assert_eq!(compute_truncated_lagrange_basis_sum(1, &point), -24);
    assert_eq!(compute_truncated_lagrange_basis_sum(0, &point), 0);
}

#[test]
fn compute_truncated_lagrange_basis_inner_product_gives_correct_values_with_0_variables() {
    let a: Vec<Scalar> = vec![];
    let b = vec![];
    assert_eq!(
        compute_truncated_lagrange_basis_inner_product_scalar(1, &a, &b),
        Scalar::from_u64(1)
    );
    assert_eq!(
        compute_truncated_lagrange_basis_inner_product_scalar(0, &a, &b),
        Scalar::from_u64(0)
    );
}

#[test]
fn compute_truncated_lagrange_basis_inner_product_gives_correct_values_with_1_variables() {
    let a = scalars(&[2]);
    let b = scalars(&[3]);
    assert_eq!(
        compute_truncated_lagrange_basis_inner_product_scalar(2, &a, &b),
        Scalar::from_u64(8) // This is (2-1)(3-1) + (2)(3)
    );
    assert_eq!(
        compute_truncated_lagrange_basis_inner_product_scalar(1, &a, &b),
        Scalar::from_u64(2) // This is (2-1)(3-1)
    );
    assert_eq!(
        compute_truncated_lagrange_basis_inner_product_scalar(0, &a, &b),
        Scalar::from_u64(0)
    );
}

#[test]
fn compute_truncated_lagrange_basis_inner_product_gives_correct_values_with_3_variables() {
    let a = scalars(&[2, 5, 7]);
    let b = scalars(&[3, 11, 13]);
    assert_eq!(
        compute_truncated_lagrange_basis_inner_product_scalar(8, &a, &b),
        Scalar::from_u64(123_880)
    );
    assert_eq!(
        compute_truncated_lagrange_basis_inner_product_scalar(7, &a, &b),
        Scalar::from_u64(93850)
    );
    assert_eq!(
        compute_truncated_lagrange_basis_inner_product_scalar(6, &a, &b),
        Scalar::from_u64(83840)
    );
    assert_eq!(
        compute_truncated_lagrange_basis_inner_product_scalar(5, &a, &b),
        Scalar::from_u64(62000)
    );
    assert_eq!(
        compute_truncated_lagrange_basis_inner_product_scalar(4, &a, &b),
        Scalar::from_u64(54720)
    );
    assert_eq!(
        compute_truncated_lagrange_basis_inner_product_scalar(3, &a, &b),
        Scalar::from_u64(30960)
    );
    assert_eq!(
        compute_truncated_lagrange_basis_inner_product_scalar(2, &a, &b),
        Scalar::from_u64(23040)
    );
    assert_eq!(
        compute_truncated_lagrange_basis_inner_product_scalar(1, &a, &b),
        Scalar::from_u64(5760)
    );
    assert_eq!(
        compute_truncated_lagrange_basis_inner_product_scalar(0, &a, &b),
        Scalar::from_u64(0)
    );
}

#[test]
fn compute_truncated_lagrange_basis_inner_product_gives_correct_values_with_3_variables_using_i32() {
    let a: Vec<i64> = vec![2, 5, 7];
    let b: Vec<i64> = vec![3, 11, 13];
    assert_eq!(compute_truncated_lagrange_basis_inner_product(8, &a, &b), 123_880);
    assert_eq!(compute_truncated_lagrange_basis_inner_product(7, &a, &b), 93850);
    assert_eq!(compute_truncated_lagrange_basis_inner_product(6, &a, &b), 83840);
    assert_eq!(compute_truncated_lagrange_basis_inner_product(5, &a, &b), 62000);
    assert_eq!(compute_truncated_lagrange_basis_inner_product(4, &a, &b), 54720);
    assert_eq!(compute_truncated_lagrange_basis_inner_product(3, &a, &b), 30960);
    assert_eq!(compute_truncated_lagrange_basis_inner_product(2, &a, &b), 23040);
    assert_eq!(compute_truncated_lagrange_basis_inner_product(1, &a, &b), 5760);
    assert_eq!(compute_truncated_lagrange_basis_inner_product(0, &a, &b), 0);
}
