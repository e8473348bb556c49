use num_bigint::BigUint;
use projective_ec::error::CurveError;
use projective_ec::field::Field;
use projective_ec::natural::Natural;

const SECP256K1_P: &str = "fffffffffffffffffffffffffffffffffffffffffffffffffffffffefffffc2f";

fn from_big(value: &BigUint) -> Natural {
    Natural::from_limbs(value.to_u32_digits())
}

fn to_big(value: &Natural) -> BigUint {
    BigUint::new(value.to_limbs())
}

fn hex(digits: &str) -> BigUint {
    BigUint::parse_bytes(digits.as_bytes(), 16).unwrap()
}

fn small_field(modulus: u64) -> Field {
    Field::new(Natural::from_u64(modulus)).unwrap()
}

fn secp256k1_field() -> Field {
    Field::new(from_big(&hex(SECP256K1_P))).unwrap()
}

fn n(value: u64) -> Natural {
    Natural::from_u64(value)
}

#[test]
fn field_needs_a_modulus_of_at_least_two() {
    assert!(Field::new(n(0)).is_none());
    assert!(Field::new(n(1)).is_none());
    assert!(Field::new(n(2)).is_some());
    assert!(Field::new(from_big(&hex(SECP256K1_P))).is_some());
}

#[test]
fn modulus_is_kept() {
    assert_eq!(small_field(7).modulus().to_limbs(), vec![7]);
    assert_eq!(to_big(secp256k1_field().modulus()), hex(SECP256K1_P));
}

#[test]
fn reduce_gives_the_residue() {
    let f = small_field(7);
    assert_eq!(f.reduce(&n(23)).to_limbs(), vec![2]);
    assert_eq!(f.reduce(&n(6)).to_limbs(), vec![6]);
    assert!(f.reduce(&n(7)).is_zero());
    assert!(f.reduce(&n(0)).is_zero());
}

#[test]
fn add_wraps_around_the_modulus() {
    let f = small_field(7);
    assert_eq!(f.add(&n(3), &n(2)).to_limbs(), vec![5]);
    assert_eq!(f.add(&n(5), &n(4)).to_limbs(), vec![2]);
    assert!(f.add(&n(3), &n(4)).is_zero());
    assert_eq!(f.add(&n(100), &n(100)).to_limbs(), vec![4]);
}

#[test]
fn sub_is_never_negative() {
    let f = small_field(7);
    assert_eq!(f.sub(&n(5), &n(3)).to_limbs(), vec![2]);
    assert_eq!(f.sub(&n(3), &n(5)).to_limbs(), vec![5]);
    assert!(f.sub(&n(4), &n(4)).is_zero());
    assert_eq!(f.sub(&n(0), &n(100)).to_limbs(), vec![5]);
    let g = secp256k1_field();
    let p = hex(SECP256K1_P);
    assert_eq!(to_big(&g.sub(&n(1), &n(369))), &p - 368u32);
}

#[test]
fn mul_reduces_the_product() {
    let f = small_field(7);
    assert_eq!(f.mul(&n(3), &n(4)).to_limbs(), vec![5]);
    assert!(f.mul(&n(0), &n(4)).is_zero());
    assert!(f.mul(&n(7), &n(4)).is_zero());
    let g = secp256k1_field();
    let p = hex(SECP256K1_P);
    let a = &p - 1u32;
    assert!(g.mul(&from_big(&a), &from_big(&a)).is_one());
    assert_eq!(to_big(&g.mul(&from_big(&a), &n(2))), &p - 2u32);
}

#[test]
fn inverse_in_a_small_prime_field() {
    let f = small_field(383);
    assert_eq!(f.inverse(&n(271)).unwrap().to_limbs(), vec![106]);
    assert_eq!(f.inverse(&n(106)).unwrap().to_limbs(), vec![271]);
    assert_eq!(f.inverse(&n(1)).unwrap().to_limbs(), vec![1]);
    assert_eq!(f.inverse(&n(382)).unwrap().to_limbs(), vec![382]);
    assert_eq!(f.inverse(&n(383 + 271)).unwrap().to_limbs(), vec![106]);
}

#[test]
fn inverse_times_the_number_is_one() {
    let f = small_field(101);
    for a in 1..101u64 {
        let inv = f.inverse(&n(a)).unwrap();
        assert!(f.mul(&n(a), &inv).is_one());
    }
}

#[test]
fn inverse_in_the_secp256k1_field() {
    let g = secp256k1_field();
    let p = hex(SECP256K1_P);
    let two_inverse = g.inverse(&n(2)).unwrap();
    assert_eq!(
        to_big(&two_inverse),
        hex("7fffffffffffffffffffffffffffffffffffffffffffffffffffffff7ffffe18")
    );
    let a = hex("79be667ef9dcbbac55a06295ce870b07029bfcdb2dce28d959f2815b16f81798");
    let expected = a.modpow(&(&p - 2u32), &p);
    assert_eq!(to_big(&g.inverse(&from_big(&a)).unwrap()), expected);
}

#[test]
fn inverse_of_zero_is_a_division_by_zero() {
    let f = small_field(7);
    assert_eq!(f.inverse(&n(0)).unwrap_err(), CurveError::DivisionByZero);
    assert_eq!(f.inverse(&n(14)).unwrap_err(), CurveError::DivisionByZero);
    let g = secp256k1_field();
    assert_eq!(g.inverse(&n(0)).unwrap_err(), CurveError::DivisionByZero);
    assert_eq!(
        g.inverse(&from_big(&hex(SECP256K1_P))).unwrap_err(),
        CurveError::DivisionByZero
    );
}

#[test]
fn inverse_modulo_a_composite_exists_for_coprime_numbers_only() {
    let f = small_field(8);
    assert_eq!(f.inverse(&n(3)).unwrap().to_limbs(), vec![3]);
    assert_eq!(f.inverse(&n(5)).unwrap().to_limbs(), vec![5]);
    assert_eq!(f.inverse(&n(2)).unwrap_err(), CurveError::DivisionByZero);
    assert_eq!(f.inverse(&n(6)).unwrap_err(), CurveError::DivisionByZero);
}

#[test]
fn div_multiplies_by_the_inverse() {
    let f = small_field(7);
    assert_eq!(f.div(&n(6), &n(3)).unwrap().to_limbs(), vec![2]);
    assert_eq!(f.div(&n(1), &n(3)).unwrap().to_limbs(), vec![5]);
    assert!(f.div(&n(0), &n(3)).unwrap().is_zero());
    assert_eq!(f.div(&n(3), &n(0)).unwrap_err(), CurveError::DivisionByZero);
    assert_eq!(f.div(&n(3), &n(7)).unwrap_err(), CurveError::DivisionByZero);
}
