use core::cmp::Ordering;
use proof_of_sql::scalar::{batch_inversion, Scalar};

#[test]
fn scalar_comparison_works() {
    let zero = Scalar::zero();
    let one = Scalar::one();
    let two = Scalar::from_u64(2);
    let max = Scalar::max_signed();
    let min = max.add(&one);
    assert_eq!(max.signed_cmp(&one), Ordering::Greater);
    assert_eq!(one.signed_cmp(&zero), Ordering::Greater);
    assert_eq!(min.signed_cmp(&zero), Ordering::Less);
    assert_eq!(two.mul(&max).signed_cmp(&zero), Ordering::Less);
    assert_eq!(two.mul(&max).add(&one), zero);
}

#[test]
fn we_can_compute_powers_of_10() {
    for i in 0..=u128::MAX.ilog10() {
        assert_eq!(
            Scalar::pow10(u8::try_from(i).unwrap()),
            Scalar::from_u128(u128::pow(10, i))
        );
    }
    let ten_to_38 = Scalar::from_u128(u128::pow(10, 38));
    assert_eq!(Scalar::pow10(76), ten_to_38.mul(&ten_to_38));
}

#[test]
fn batch_inversion_maps_zero_to_zero_and_inverts_the_rest() {
    let mut values = vec![
        Scalar::zero(),
        Scalar::from_u64(2),
        Scalar::from_u64(3),
        Scalar::zero(),
        Scalar::from_i64(-5),
    ];
    let originals = values.clone();
    batch_inversion(&mut values);
    assert_eq!(values[0], Scalar::zero());
    assert_eq!(values[3], Scalar::zero());
    for i in [1usize, 2, 4] {
        assert_eq!(originals[i].mul(&values[i]), Scalar::one());
    }
}

#[test]
fn signed_values_embed_and_compare() {
    let a = Scalar::from_i64(-3);
    let b = Scalar::from_i64(2);
    assert_eq!(a.signed_cmp(&b), Ordering::Less);
    assert_eq!(b.signed_cmp(&a), Ordering::Greater);
    assert_eq!(a.signed_cmp(&Scalar::from_i64(-3)), Ordering::Equal);
    assert_eq!(a.add(&b), Scalar::from_i64(-1));
    assert_eq!(b.sub(&a), Scalar::from_u64(5));
    assert_eq!(a.neg(), Scalar::from_u64(3));
}

#[test]
fn inversion_is_a_two_sided_inverse() {
    let x = Scalar::from_u64(123456789);
    assert_eq!(x.mul(&x.inv()), Scalar::one());
    assert_eq!(x.inv().mul(&x), Scalar::one());
    assert_eq!(Scalar::zero().inv(), Scalar::zero());
}
