use num_bigint::{BigInt, BigUint};
use projective_ec::error::CurveError;
use projective_ec::field::Field;
use projective_ec::natural::Natural;
use projective_ec::point::{point_add, point_double, to_affine, ProjectivePoint};

const SECP256K1_P: &str = "fffffffffffffffffffffffffffffffffffffffffffffffffffffffefffffc2f";
const GENERATOR_X: &str = "79be667ef9dcbbac55a06295ce870b07029bfcdb2dce28d959f2815b16f81798";
const GENERATOR_Y: &str = "483ada7726a3c4655da4fbfc0e1108a8fd17b448a68554199c47d08ffb10d4b8";

fn from_big(value: &BigUint) -> Natural {
    Natural::from_limbs(value.to_u32_digits())
}

fn to_big(value: &Natural) -> BigUint {
    BigUint::new(value.to_limbs())
}

fn hex(digits: &str) -> BigUint {
    BigUint::parse_bytes(digits.as_bytes(), 16).unwrap()
}

fn n(value: u64) -> Natural {
    Natural::from_u64(value)
}

fn small_field(modulus: u64) -> Field {
    Field::new(n(modulus)).unwrap()
}

fn secp256k1_field() -> Field {
    Field::new(from_big(&hex(SECP256K1_P))).unwrap()
}

fn point(field: &Field, x: u64, y: u64, z: u64) -> ProjectivePoint {
    ProjectivePoint::new(field, &n(x), &n(y), &n(z))
}

fn coordinates(point: &ProjectivePoint) -> (BigUint, BigUint, BigUint) {
    (to_big(point.x()), to_big(point.y()), to_big(point.z()))
}

fn small(x: u64, y: u64, z: u64) -> (BigUint, BigUint, BigUint) {
    (BigUint::from(x), BigUint::from(y), BigUint::from(z))
}

/// `value mod modulus`, never negative.
fn residue(value: &BigInt, modulus: &BigUint) -> BigUint {
    let m = BigInt::from(modulus.clone());
    (((value % &m) + &m) % &m).to_biguint().unwrap()
}

/// The doubling polynomials over the integers, with no reduction.
fn unreduced_double(x: &BigInt, y: &BigInt, z: &BigInt) -> (BigInt, BigInt, BigInt) {
    let t = 3 * x * x;
    let u = 2 * y * z;
    let v = 2 * &u * x * y;
    let w = &t * &t - 2 * &v;
    let x3 = &w * &u * &u;
    let y3 = &t * (&v - &w) - 2 * (&u * y) * (&u * y);
    let z3 = &u * &u * &u;
    (x3, y3, z3)
}

/// The addition polynomials over the integers, with no reduction.
fn unreduced_add(p: (&BigInt, &BigInt, &BigInt), q: (&BigInt, &BigInt, &BigInt)) -> (BigInt, BigInt, BigInt) {
    let t0 = p.1 * q.2;
    let t1 = q.1 * p.2;
    let t = &t0 - &t1;
    let u0 = p.0 * q.2;
    let u1 = q.0 * p.2;
    let u = &u0 - &u1;
    let u_squared = &u * &u;
    let v = p.2 * q.2;
    let w = &t * &t * &v - &u_squared * (&u0 + &u1);
    let x3 = &w * &u_squared;
    let y3 = &t * (&u0 * &u_squared - &w) - &t0 * &u * &u * &u;
    let z3 = &u * &u_squared;
    (x3, y3, z3)
}

#[test]
fn new_reduces_the_coordinates() {
    let f = small_field(7);
    assert_eq!(coordinates(&point(&f, 8, 9, 10)), small(1, 2, 3));
    assert_eq!(coordinates(&point(&f, 1, 2, 1)), small(1, 2, 1));
}

#[test]
fn new_with_a_vanishing_z_is_the_identity() {
    let f = small_field(7);
    assert_eq!(coordinates(&point(&f, 5, 3, 0)), small(0, 1, 0));
    assert_eq!(coordinates(&point(&f, 5, 3, 14)), small(0, 1, 0));
    assert!(point(&f, 5, 3, 7).is_identity());
    assert!(!point(&f, 5, 3, 1).is_identity());
}

#[test]
fn identity_is_zero_one_zero() {
    let id = ProjectivePoint::identity();
    assert_eq!(coordinates(&id), small(0, 1, 0));
    assert!(id.is_identity());
}

#[test]
fn same_compares_coordinates() {
    let f = small_field(7);
    assert!(point(&f, 1, 2, 3).same(&point(&f, 8, 2, 3)));
    assert!(!point(&f, 1, 2, 3).same(&point(&f, 1, 2, 4)));
    assert!(!point(&f, 1, 2, 3).same(&point(&f, 2, 4, 6)));
    assert!(point(&f, 1, 2, 3).clone().same(&point(&f, 1, 2, 3)));
}

#[test]
fn double_of_one_two_one_over_secp256k1() {
    let f = secp256k1_field();
    let p = hex(SECP256K1_P);
    let doubled = point_double(&f, &point(&f, 1, 2, 1));
    assert_eq!(coordinates(&doubled), (&p - 368u32, &p - 11u32, BigUint::from(64u32)));
    let (x, y) = to_affine(&f, &doubled).unwrap();
    assert_eq!(
        to_big(&x),
        hex("3fffffffffffffffffffffffffffffffffffffffffffffffffffffffbfffff06")
    );
    assert_eq!(
        to_big(&y),
        hex("93ffffffffffffffffffffffffffffffffffffffffffffffffffffff6bfffdcb")
    );
}

#[test]
fn double_agrees_with_the_unreduced_polynomials() {
    let f = secp256k1_field();
    let p = hex(SECP256K1_P);
    let (x, y, z) = unreduced_double(&BigInt::from(1), &BigInt::from(2), &BigInt::from(1));
    assert_eq!((x.clone(), y.clone(), z.clone()), (BigInt::from(-368), BigInt::from(-11), BigInt::from(64)));
    let doubled = point_double(&f, &point(&f, 1, 2, 1));
    assert_eq!(coordinates(&doubled), (residue(&x, &p), residue(&y, &p), residue(&z, &p)));

    let gx = hex(GENERATOR_X);
    let gy = hex(GENERATOR_Y);
    let g = ProjectivePoint::from_affine(&f, &from_big(&gx), &from_big(&gy));
    let (x, y, z) = unreduced_double(&BigInt::from(gx), &BigInt::from(gy), &BigInt::from(1));
    assert_eq!(
        coordinates(&point_double(&f, &g)),
        (residue(&x, &p), residue(&y, &p), residue(&z, &p))
    );
}

#[test]
fn double_in_a_small_field() {
    // T = 3, U = 4, V = 16 = 5, W = 9 - 10 = -1 = 10, X3 = 10 * 16 = 6,
    // Y3 = 3 * (5 - 10) - 2 * 64 = -143 = 0, Z3 = 64 = 9, all modulo 11.
    let f = small_field(11);
    assert_eq!(coordinates(&point_double(&f, &point(&f, 1, 2, 1))), small(6, 0, 9));
}

#[test]
fn double_of_the_generator_has_the_known_y() {
    let f = secp256k1_field();
    let g = ProjectivePoint::from_affine(
        &f,
        &from_big(&hex(GENERATOR_X)),
        &from_big(&hex(GENERATOR_Y)),
    );
    let (_, y) = to_affine(&f, &point_double(&f, &g)).unwrap();
    assert_eq!(
        to_big(&y),
        hex("1ae168fea63dc339a3c58419466ceaeef7f632653266d0e1236431a950cfe52a")
    );
}

#[test]
fn double_of_the_generator_has_the_known_x_times_u() {
    let f = secp256k1_field();
    let p = hex(SECP256K1_P);
    let gy = hex(GENERATOR_Y);
    let g = ProjectivePoint::from_affine(&f, &from_big(&hex(GENERATOR_X)), &from_big(&gy));
    let (x, _) = to_affine(&f, &point_double(&f, &g)).unwrap();
    let known_x = hex("c6047f9441ed7d6d3045406e95c07cd85c778e4b8cef3ca7abac09b95c709ee5");
    let u = (BigUint::from(2u32) * &gy) % &p;
    assert_eq!(to_big(&x), (&u * &known_x) % &p);
    assert_eq!(
        to_big(&x),
        hex("de7f8cc271a0bfea1e32df9ea5846499fbe4c4ce43479cbb1b05136526e26b9b")
    );
}

#[test]
fn double_is_the_tangent_double_where_u_is_one() {
    // With y = 1 / 2 and z = 1 the factor U = 2 y z is one. The tangent at
    // (5, 1 / 2) has the slope 3 * 25 / 1 = 75, so x' = 75^2 - 10 = 5615
    // and y' = 75 * (5 - 5615) - 1 / 2.
    let f = secp256k1_field();
    let p = hex(SECP256K1_P);
    let half = BigUint::from(2u32).modpow(&(&p - 2u32), &p);
    let point = ProjectivePoint::from_affine(&f, &n(5), &from_big(&half));
    let (x, y) = to_affine(&f, &point_double(&f, &point)).unwrap();
    assert_eq!(to_big(&x), BigUint::from(5615u32));
    assert_eq!(to_big(&y), (&p + &p - 420750u32 - &half) % &p);
}

#[test]
fn double_of_the_identity_is_the_identity() {
    let f = small_field(7);
    let doubled = point_double(&f, &ProjectivePoint::identity());
    assert_eq!(coordinates(&doubled), small(0, 1, 0));
}

#[test]
fn double_of_a_point_with_y_zero_is_the_identity() {
    let f = small_field(7);
    assert_eq!(coordinates(&point_double(&f, &point(&f, 3, 0, 1))), small(0, 1, 0));
    assert_eq!(coordinates(&point_double(&f, &point(&f, 3, 7, 2))), small(0, 1, 0));
}

#[test]
fn double_over_a_composite_modulus_stays_valid() {
    // U = 2 is not zero modulo 8, but Z3 = U^3 is.
    let f = small_field(8);
    assert_eq!(coordinates(&point_double(&f, &point(&f, 1, 1, 1))), small(0, 1, 0));
}

#[test]
fn add_of_two_points_over_secp256k1() {
    let f = secp256k1_field();
    let p = hex(SECP256K1_P);
    let sum = point_add(&f, &point(&f, 1, 2, 1), &point(&f, 4, 5, 1));
    assert_eq!(coordinates(&sum), (&p - 324u32, &p - 81u32, &p - 27u32));
    let (x, y) = to_affine(&f, &sum).unwrap();
    assert_eq!((to_big(&x), to_big(&y)), (BigUint::from(12u32), BigUint::from(3u32)));
}

#[test]
fn add_agrees_with_the_unreduced_polynomials() {
    let f = secp256k1_field();
    let p = hex(SECP256K1_P);
    let one = BigInt::from(1);
    let (x, y, z) = unreduced_add(
        (&BigInt::from(1), &BigInt::from(2), &one),
        (&BigInt::from(4), &BigInt::from(5), &one),
    );
    assert_eq!((x.clone(), y.clone(), z.clone()), (BigInt::from(-324), BigInt::from(-81), BigInt::from(-27)));
    let sum = point_add(&f, &point(&f, 1, 2, 1), &point(&f, 4, 5, 1));
    assert_eq!(coordinates(&sum), (residue(&x, &p), residue(&y, &p), residue(&z, &p)));

    let (x, y, z) = unreduced_add(
        (&BigInt::from(7), &BigInt::from(11), &BigInt::from(13)),
        (&BigInt::from(17), &BigInt::from(19), &BigInt::from(23)),
    );
    let sum = point_add(&f, &point(&f, 7, 11, 13), &point(&f, 17, 19, 23));
    assert_eq!(coordinates(&sum), (residue(&x, &p), residue(&y, &p), residue(&z, &p)));
}

#[test]
fn add_in_a_small_field() {
    // T = -3 = 8, U = -3 = 8, V = 1, W = 9 - 9 * 5 = -36 = 8,
    // X3 = 8 * 9 = 6, Y3 = -81 = 7, Z3 = -27 = 6, all modulo 11.
    let f = small_field(11);
    let sum = point_add(&f, &point(&f, 1, 2, 1), &point(&f, 4, 5, 1));
    assert_eq!(coordinates(&sum), small(6, 7, 6));
}

#[test]
fn add_of_the_identity_on_either_side_changes_nothing() {
    let f = secp256k1_field();
    let p = point(&f, 1, 2, 1);
    let id = ProjectivePoint::identity();
    assert!(point_add(&f, &p, &id).same(&p));
    assert!(point_add(&f, &id, &p).same(&p));
    assert!(point_add(&f, &id, &id).same(&id));
    let q = point(&f, 7, 11, 13);
    assert_eq!(coordinates(&point_add(&f, &q, &id)), small(7, 11, 13));
    assert_eq!(coordinates(&point_add(&f, &id, &q)), small(7, 11, 13));
}

#[test]
fn add_of_a_point_to_itself_is_its_double() {
    let f = secp256k1_field();
    let p = point(&f, 1, 2, 1);
    let sum = point_add(&f, &p, &p);
    let doubled = point_double(&f, &p);
    assert!(sum.same(&doubled));
    let a = to_affine(&f, &sum).unwrap();
    let b = to_affine(&f, &doubled).unwrap();
    assert!(a.0.same(&b.0) && a.1.same(&b.1));
}

#[test]
fn add_of_two_forms_of_one_point_is_the_double_of_the_first() {
    let f = small_field(11);
    let p = point(&f, 1, 2, 1);
    let scaled = point(&f, 3, 6, 3);
    assert!(point_add(&f, &p, &scaled).same(&point_double(&f, &p)));
    assert!(point_add(&f, &scaled, &p).same(&point_double(&f, &scaled)));
}

#[test]
fn add_of_opposite_points_is_the_identity() {
    let f = small_field(11);
    let p = point(&f, 4, 5, 1);
    let opposite = point(&f, 4, 6, 1);
    assert!(point_add(&f, &p, &opposite).is_identity());
    assert!(point_add(&f, &opposite, &p).is_identity());
    assert_eq!(coordinates(&point_add(&f, &p, &opposite)), small(0, 1, 0));
}

#[test]
fn add_commutes_where_a_point_is_the_identity_or_the_two_are_opposite() {
    let f = secp256k1_field();
    let p = hex(SECP256K1_P);
    let a = point(&f, 4, 5, 1);
    let id = ProjectivePoint::identity();
    assert!(point_add(&f, &a, &id).same(&point_add(&f, &id, &a)));
    let opposite = ProjectivePoint::new(&f, &n(4), &from_big(&(&p - 5u32)), &n(1));
    assert!(point_add(&f, &a, &opposite).same(&point_add(&f, &opposite, &a)));
    assert!(point_add(&f, &a, &a).same(&point_add(&f, &a, &a)));
}

#[test]
fn add_in_the_other_order_negates_y_and_z() {
    let f = secp256k1_field();
    let a = point(&f, 1, 2, 1);
    let b = point(&f, 4, 5, 1);
    let sum = point_add(&f, &b, &a);
    assert_eq!(
        coordinates(&sum),
        (hex(SECP256K1_P) - 324u32, BigUint::from(81u32), BigUint::from(27u32))
    );
    let (x, y) = to_affine(&f, &sum).unwrap();
    assert_eq!((to_big(&x), to_big(&y)), (hex(SECP256K1_P) - 12u32, BigUint::from(3u32)));
}

#[test]
fn add_commutes_modulo_two() {
    let f = small_field(2);
    let a = point(&f, 0, 1, 1);
    let b = point(&f, 1, 1, 1);
    assert!(point_add(&f, &a, &b).same(&point_add(&f, &b, &a)));
    assert_eq!(coordinates(&point_add(&f, &a, &b)), small(1, 1, 1));
}

#[test]
fn to_affine_of_the_identity_fails() {
    let f = secp256k1_field();
    assert_eq!(
        to_affine(&f, &ProjectivePoint::identity()).unwrap_err(),
        CurveError::PointAtInfinity
    );
    assert_eq!(to_affine(&f, &point(&f, 3, 4, 0)).unwrap_err(), CurveError::PointAtInfinity);
    let doubled = point_double(&f, &point(&f, 3, 0, 1));
    assert_eq!(to_affine(&f, &doubled).unwrap_err(), CurveError::PointAtInfinity);
}

#[test]
fn to_affine_divides_by_z() {
    let f = small_field(7);
    // 1 / 3 = 5 modulo 7
    let (x, y) = to_affine(&f, &point(&f, 6, 2, 3)).unwrap();
    assert_eq!((to_big(&x), to_big(&y)), (BigUint::from(2u32), BigUint::from(3u32)));
}

#[test]
fn to_affine_over_a_composite_modulus_can_divide_by_zero() {
    let f = small_field(8);
    assert_eq!(to_affine(&f, &point(&f, 1, 1, 2)).unwrap_err(), CurveError::DivisionByZero);
    let (x, y) = to_affine(&f, &point(&f, 1, 2, 3)).unwrap();
    assert_eq!((to_big(&x), to_big(&y)), (BigUint::from(3u32), BigUint::from(6u32)));
}

#[test]
fn affine_round_trip() {
    let f = secp256k1_field();
    let gx = hex(GENERATOR_X);
    let gy = hex(GENERATOR_Y);
    let g = ProjectivePoint::from_affine(&f, &from_big(&gx), &from_big(&gy));
    assert_eq!(coordinates(&g), (gx.clone(), gy.clone(), BigUint::from(1u32)));
    let (x, y) = to_affine(&f, &g).unwrap();
    assert_eq!((to_big(&x), to_big(&y)), (gx, gy));

    let small_one = small_field(7);
    for a in 0..7u64 {
        for b in 0..7u64 {
            let lifted = ProjectivePoint::from_affine(&small_one, &n(a), &n(b));
            let (x, y) = to_affine(&small_one, &lifted).unwrap();
            assert!(x.same(&n(a)) && y.same(&n(b)));
        }
    }
}
