//! Points of a short Weierstrass curve with `a = 0`, in projective
//! coordinates: `(X, Y, Z)` with `Z` not zero stands for the affine point
//! `(X / Z, Y / Z)`, and `Z = 0` for the point at infinity, the identity of
//! the curve's group.
//!
//! The result of each operation is given by integer polynomials in the
//! coordinates, reduced modulo the field's modulus once at the end. The
//! code reduces after every step instead, and is proved to arrive at the
//! same residues.

use crate::error::CurveError;
use crate::field::Field;
use crate::modular::{
    invertible, is_prime, lemma_mod_add_tracks, lemma_mod_mul_tracks, lemma_mod_sub_tracks,
    lemma_prime_invertible, mod_div,
};
use crate::natural::Natural;
use vstd::arithmetic::div_mod::lemma_small_mod;
use vstd::prelude::*;

verus! {

/// The three coordinates of a projective point, as integers.
pub struct PointModel {
    pub x: int,
    pub y: int,
    pub z: int,
}

/// The point at infinity, in the one form this crate gives it: `(0, 1, 0)`.
pub open spec fn identity_model() -> PointModel {
    PointModel { x: 0, y: 1, z: 0 }
}

/// The coordinates are reduced modulo `p`, and the point at infinity has
/// its one form.
pub open spec fn valid_point(p: int, m: PointModel) -> bool {
    &&& 0 <= m.x < p
    &&& 0 <= m.y < p
    &&& 0 <= m.z < p
    &&& m.z == 0 ==> m == identity_model()
}

/// The point with the given coordinates, reduced modulo `p`. Whatever has
/// a `z` that `p` divides is the point at infinity.
pub open spec fn point_of(p: int, x: int, y: int, z: int) -> PointModel {
    if z % p == 0 {
        identity_model()
    } else {
        PointModel { x: x % p, y: y % p, z: z % p }
    }
}

/// Doubling: `T = 3 X^2`.
pub open spec fn double_t(m: PointModel) -> int {
    3 * (m.x * m.x)
}

/// Doubling: `U = 2 Y Z`.
pub open spec fn double_u(m: PointModel) -> int {
    2 * (m.y * m.z)
}

/// Doubling: `V = 2 U X Y`.
pub open spec fn double_v(m: PointModel) -> int {
    2 * ((double_u(m) * m.x) * m.y)
}

/// Doubling: `W = T^2 - 2 V`.
pub open spec fn double_w(m: PointModel) -> int {
    double_t(m) * double_t(m) - 2 * double_v(m)
}

/// Doubling: `X3 = W U^2`.
pub open spec fn double_x(m: PointModel) -> int {
    double_w(m) * (double_u(m) * double_u(m))
}

/// Doubling: `Y3 = T (V - W) - 2 (U Y)^2`.
pub open spec fn double_y(m: PointModel) -> int {
    double_t(m) * (double_v(m) - double_w(m)) - 2 * ((double_u(m) * m.y) * (double_u(m) * m.y))
}

/// Doubling: `Z3 = U^3`.
pub open spec fn double_z(m: PointModel) -> int {
    double_u(m) * (double_u(m) * double_u(m))
}

/// The double of a point modulo `p`. The point at infinity, and a point
/// whose `U` vanishes modulo `p` (a point of order two, with `Y = 0`),
/// double to the point at infinity.
pub open spec fn spec_double(p: int, m: PointModel) -> PointModel {
    if m.z % p == 0 || double_u(m) % p == 0 {
        identity_model()
    } else {
        point_of(p, double_x(m), double_y(m), double_z(m))
    }
}

/// Addition: `T0 = Y1 Z2`.
pub open spec fn add_t0(m: PointModel, n: PointModel) -> int {
    m.y * n.z
}

/// Addition: `T1 = Y2 Z1`.
pub open spec fn add_t1(m: PointModel, n: PointModel) -> int {
    n.y * m.z
}

/// Addition: `T = T0 - T1`.
pub open spec fn add_t(m: PointModel, n: PointModel) -> int {
    add_t0(m, n) - add_t1(m, n)
}

/// Addition: `U0 = X1 Z2`.
pub open spec fn add_u0(m: PointModel, n: PointModel) -> int {
    m.x * n.z
}

/// Addition: `U1 = X2 Z1`.
pub open spec fn add_u1(m: PointModel, n: PointModel) -> int {
    n.x * m.z
}

/// Addition: `U = U0 - U1`.
pub open spec fn add_u(m: PointModel, n: PointModel) -> int {
    add_u0(m, n) - add_u1(m, n)
}

/// Addition: `V = Z1 Z2`.
pub open spec fn add_v(m: PointModel, n: PointModel) -> int {
    m.z * n.z
}

/// Addition: `W = T^2 V - U^2 (U0 + U1)`.
pub open spec fn add_w(m: PointModel, n: PointModel) -> int {
    (add_t(m, n) * add_t(m, n)) * add_v(m, n) - (add_u(m, n) * add_u(m, n)) * (add_u0(m, n)
        + add_u1(m, n))
}

/// Addition: `X3 = W U^2`.
pub open spec fn add_x(m: PointModel, n: PointModel) -> int {
    add_w(m, n) * (add_u(m, n) * add_u(m, n))
}

/// Addition: `Y3 = T (U0 U^2 - W) - T0 U^3`.
pub open spec fn add_y(m: PointModel, n: PointModel) -> int {
    add_t(m, n) * (add_u0(m, n) * (add_u(m, n) * add_u(m, n)) - add_w(m, n)) - add_t0(m, n) * (
    add_u(m, n) * (add_u(m, n) * add_u(m, n)))
}

/// Addition: `Z3 = U U^2`.
pub open spec fn add_z(m: PointModel, n: PointModel) -> int {
    add_u(m, n) * (add_u(m, n) * add_u(m, n))
}

/// The sum of two points modulo `p`.
///
/// The point at infinity added to a point gives that point. Where `U`
/// vanishes modulo `p` the two points lie over the same `x`: they are then
/// the same point if `T` vanishes too, and the sum is the double of the
/// first, or they are opposite, and the sum is the point at infinity.
/// Everywhere else the sum is given by the addition polynomials.
pub open spec fn spec_add(p: int, m: PointModel, n: PointModel) -> PointModel {
    if m.z % p == 0 {
        n
    } else if n.z % p == 0 {
        m
    } else if add_u(m, n) % p == 0 {
        if add_t(m, n) % p == 0 {
            spec_double(p, m)
        } else {
            identity_model()
        }
    } else {
        point_of(p, add_x(m, n), add_y(m, n), add_z(m, n))
    }
}

/// The affine coordinates `(X / Z, Y / Z)` of a point modulo `p`.
///
/// The point at infinity has none. Neither has a point whose `Z` has no
/// inverse modulo `p`, which a prime `p` rules out.
pub open spec fn spec_to_affine(p: int, m: PointModel) -> Result<(int, int), CurveError> {
    if m.z % p == 0 {
        Err(CurveError::PointAtInfinity)
    } else if !invertible(p, m.z) {
        Err(CurveError::DivisionByZero)
    } else {
        Ok((mod_div(p, m.x, m.z), mod_div(p, m.y, m.z)))
    }
}

/// The affine point `(x, y)` lifted to projective coordinates: `(x, y, 1)`.
pub open spec fn spec_from_affine(p: int, x: int, y: int) -> PointModel {
    point_of(p, x, y, 1)
}

/// `point_of` gives valid points.
pub proof fn lemma_point_of_valid(p: int, x: int, y: int, z: int)
    requires
        p >= 2,
    ensures
        valid_point(p, point_of(p, x, y, z)),
{
}

/// A point of a curve over the integers modulo some modulus.
#[derive(Debug)]
pub struct ProjectivePoint {
    x: Natural,
    y: Natural,
    z: Natural,
}

impl Clone for ProjectivePoint {
    /// A copy of the point.
    fn clone(&self) -> (r: ProjectivePoint)
        ensures
            r.model() == self.model(),
            r.canonical() == self.canonical(),
    {
        ProjectivePoint { x: self.x.clone(), y: self.y.clone(), z: self.z.clone() }
    }
}

impl ProjectivePoint {
    /// The coordinates held, as integers.
    pub closed spec fn model(&self) -> PointModel {
        PointModel { x: self.x@ as int, y: self.y@ as int, z: self.z@ as int }
    }

    /// The three coordinates are well-formed naturals.
    pub closed spec fn canonical(&self) -> bool {
        self.x.wf() && self.y.wf() && self.z.wf()
    }

    /// The point is a valid point over `field`.
    pub open spec fn wf(&self, field: &Field) -> bool {
        self.canonical() && valid_point(field@, self.model())
    }

    /// The point at infinity.
    pub fn identity() -> (r: ProjectivePoint)
        ensures
            r.canonical(),
            r.model() == identity_model(),
    {
        ProjectivePoint {
            x: Natural::from_u64(0),
            y: Natural::from_u64(1),
            z: Natural::from_u64(0),
        }
    }

    /// The point with the given coordinates, reduced modulo the field's
    /// modulus. Where the modulus divides `z`, that is the point at
    /// infinity.
    pub fn new(field: &Field, x: &Natural, y: &Natural, z: &Natural) -> (r: ProjectivePoint)
        requires
            field.wf(),
        ensures
            r.wf(field),
            r.model() == point_of(field@, x@ as int, y@ as int, z@ as int),
    {
        proof {
            field.lemma_modulus_bound();
        }
        let zr = field.reduce(z);
        if zr.is_zero() {
            ProjectivePoint::identity()
        } else {
            ProjectivePoint { x: field.reduce(x), y: field.reduce(y), z: zr }
        }
    }

    /// The affine point `(x, y)`, lifted to projective coordinates as
    /// `(x, y, 1)`.
    pub fn from_affine(field: &Field, x: &Natural, y: &Natural) -> (r: ProjectivePoint)
        requires
            field.wf(),
        ensures
            r.wf(field),
            r.model() == spec_from_affine(field@, x@ as int, y@ as int),
    {
        let one = Natural::from_u64(1);
        ProjectivePoint::new(field, x, y, &one)
    }

    /// The coordinate `X`.
    pub fn x(&self) -> (r: &Natural)
        ensures
            r@ == self.model().x,
            self.canonical() ==> r.wf(),
    {
        &self.x
    }

    /// The coordinate `Y`.
    pub fn y(&self) -> (r: &Natural)
        ensures
            r@ == self.model().y,
            self.canonical() ==> r.wf(),
    {
        &self.y
    }

    /// The coordinate `Z`.
    pub fn z(&self) -> (r: &Natural)
        ensures
            r@ == self.model().z,
            self.canonical() ==> r.wf(),
    {
        &self.z
    }

    /// Whether this is the point at infinity.
    pub fn is_identity(&self) -> (r: bool)
        requires
            self.canonical(),
        ensures
            r == (self.model().z == 0),
    {
        self.z.is_zero()
    }

    /// Whether `self` and `other` have the same coordinates.
    pub fn same(&self, other: &ProjectivePoint) -> (r: bool)
        requires
            self.canonical(),
            other.canonical(),
        ensures
            r == (self.model() == other.model()),
    {
        self.x.same(&other.x) && self.y.same(&other.y) && self.z.same(&other.z)
    }
}

/// The double of `point`.
pub fn point_double(field: &Field, point: &ProjectivePoint) -> (r: ProjectivePoint)
    requires
        field.wf(),
        point.wf(field),
    ensures
        r.wf(field),
        r.model() == spec_double(field@, point.model()),
{
    let ghost p = field@;
    let ghost m = point.model();
    proof {
        field.lemma_modulus_bound();
        lemma_small_mod(m.x as nat, p as nat);
        lemma_small_mod(m.y as nat, p as nat);
        lemma_small_mod(m.z as nat, p as nat);
    }
    if point.z.is_zero() {
        return ProjectivePoint::identity();
    }
    let two = Natural::from_u64(2);
    let three = Natural::from_u64(3);
    let yz = field.mul(&point.y, &point.z);
    let u = field.mul(&two, &yz);
    proof {
        lemma_mod_mul_tracks(p, m.y, m.y, m.z, m.z);
        lemma_mod_mul_tracks(p, 2, 2, yz@ as int, m.y * m.z);
        assert(u@ == double_u(m) % p);
    }
    if u.is_zero() {
        return ProjectivePoint::identity();
    }
    let xx = field.mul(&point.x, &point.x);
    let t = field.mul(&three, &xx);
    let ux = field.mul(&u, &point.x);
    let uxy = field.mul(&ux, &point.y);
    let v = field.mul(&two, &uxy);
    let tt = field.mul(&t, &t);
    let v2 = field.mul(&two, &v);
    let w = field.sub(&tt, &v2);
    let uu = field.mul(&u, &u);
    let x3 = field.mul(&w, &uu);
    let vw = field.sub(&v, &w);
    let tvw = field.mul(&t, &vw);
    let uy = field.mul(&u, &point.y);
    let uy2 = field.mul(&uy, &uy);
    let uy22 = field.mul(&two, &uy2);
    let y3 = field.sub(&tvw, &uy22);
    let z3 = field.mul(&u, &uu);
    proof {
        let gu = double_u(m);
        let gt = double_t(m);
        let gv = double_v(m);
        let gw = double_w(m);
        lemma_mod_mul_tracks(p, m.x, m.x, m.x, m.x);
        lemma_mod_mul_tracks(p, 3, 3, xx@ as int, m.x * m.x);
        assert(t@ == gt % p);
        lemma_mod_mul_tracks(p, u@ as int, gu, m.x, m.x);
        lemma_mod_mul_tracks(p, ux@ as int, gu * m.x, m.y, m.y);
        lemma_mod_mul_tracks(p, 2, 2, uxy@ as int, (gu * m.x) * m.y);
        assert(v@ == gv % p);
        lemma_mod_mul_tracks(p, t@ as int, gt, t@ as int, gt);
        lemma_mod_mul_tracks(p, 2, 2, v@ as int, gv);
        lemma_mod_sub_tracks(p, tt@ as int, gt * gt, v2@ as int, 2 * gv);
        assert(w@ == gw % p);
        lemma_mod_mul_tracks(p, u@ as int, gu, u@ as int, gu);
        lemma_mod_mul_tracks(p, w@ as int, gw, uu@ as int, gu * gu);
        assert(x3@ == double_x(m) % p);
        lemma_mod_sub_tracks(p, v@ as int, gv, w@ as int, gw);
        lemma_mod_mul_tracks(p, t@ as int, gt, vw@ as int, gv - gw);
        lemma_mod_mul_tracks(p, u@ as int, gu, m.y, m.y);
        lemma_mod_mul_tracks(p, uy@ as int, gu * m.y, uy@ as int, gu * m.y);
        lemma_mod_mul_tracks(p, 2, 2, uy2@ as int, (gu * m.y) * (gu * m.y));
        lemma_mod_sub_tracks(
            p,
            tvw@ as int,
            gt * (gv - gw),
            uy22@ as int,
            2 * ((gu * m.y) * (gu * m.y)),
        );
        assert(y3@ == double_y(m) % p);
        lemma_mod_mul_tracks(p, u@ as int, gu, uu@ as int, gu * gu);
        assert(z3@ == double_z(m) % p);
    }
    if z3.is_zero() {
        ProjectivePoint::identity()
    } else {
        ProjectivePoint { x: x3, y: y3, z: z3 }
    }
}

/// The sum of `left` and `right`.
pub fn point_add(field: &Field, left: &ProjectivePoint, right: &ProjectivePoint) -> (r:
    ProjectivePoint)
    requires
        field.wf(),
        left.wf(field),
        right.wf(field),
    ensures
        r.wf(field),
        r.model() == spec_add(field@, left.model(), right.model()),
{
    let ghost p = field@;
    let ghost m = left.model();
    let ghost n = right.model();
    proof {
        field.lemma_modulus_bound();
        lemma_small_mod(m.z as nat, p as nat);
        lemma_small_mod(n.z as nat, p as nat);
    }
    if left.z.is_zero() {
        return right.clone();
    }
    if right.z.is_zero() {
        return left.clone();
    }
    let t0 = field.mul(&left.y, &right.z);
    let t1 = field.mul(&right.y, &left.z);
    let t = field.sub(&t0, &t1);
    let u0 = field.mul(&left.x, &right.z);
    let u1 = field.mul(&right.x, &left.z);
    let u = field.sub(&u0, &u1);
    let ghost gt0 = add_t0(m, n);
    let ghost gt = add_t(m, n);
    let ghost gu0 = add_u0(m, n);
    let ghost gu1 = add_u1(m, n);
    let ghost gu = add_u(m, n);
    proof {
        lemma_mod_mul_tracks(p, m.y, m.y, n.z, n.z);
        lemma_mod_mul_tracks(p, n.y, n.y, m.z, m.z);
        lemma_mod_sub_tracks(p, t0@ as int, gt0, t1@ as int, add_t1(m, n));
        assert(t@ == gt % p);
        lemma_mod_mul_tracks(p, m.x, m.x, n.z, n.z);
        lemma_mod_mul_tracks(p, n.x, n.x, m.z, m.z);
        lemma_mod_sub_tracks(p, u0@ as int, gu0, u1@ as int, gu1);
        assert(u@ == gu % p);
    }
    if u.is_zero() {
        if t.is_zero() {
            return point_double(field, left);
        } else {
            return ProjectivePoint::identity();
        }
    }
    let uu = field.mul(&u, &u);
    let v = field.mul(&left.z, &right.z);
    let tt = field.mul(&t, &t);
    let ttv = field.mul(&tt, &v);
    let s = field.add(&u0, &u1);
    let uus = field.mul(&uu, &s);
    let w = field.sub(&ttv, &uus);
    let x3 = field.mul(&w, &uu);
    let u0uu = field.mul(&u0, &uu);
    let d = field.sub(&u0uu, &w);
    let td = field.mul(&t, &d);
    let uuu = field.mul(&u, &uu);
    let t0uuu = field.mul(&t0, &uuu);
    let y3 = field.sub(&td, &t0uuu);
    proof {
        let gv = add_v(m, n);
        let gw = add_w(m, n);
        lemma_mod_mul_tracks(p, u@ as int, gu, u@ as int, gu);
        lemma_mod_mul_tracks(p, m.z, m.z, n.z, n.z);
        lemma_mod_mul_tracks(p, t@ as int, gt, t@ as int, gt);
        lemma_mod_mul_tracks(p, tt@ as int, gt * gt, v@ as int, gv);
        lemma_mod_add_tracks(p, u0@ as int, gu0, u1@ as int, gu1);
        lemma_mod_mul_tracks(p, uu@ as int, gu * gu, s@ as int, gu0 + gu1);
        lemma_mod_sub_tracks(p, ttv@ as int, (gt * gt) * gv, uus@ as int, (gu * gu) * (gu0 + gu1));
        assert(w@ == gw % p);
        lemma_mod_mul_tracks(p, w@ as int, gw, uu@ as int, gu * gu);
        assert(x3@ == add_x(m, n) % p);
        lemma_mod_mul_tracks(p, u0@ as int, gu0, uu@ as int, gu * gu);
        lemma_mod_sub_tracks(p, u0uu@ as int, gu0 * (gu * gu), w@ as int, gw);
        lemma_mod_mul_tracks(p, t@ as int, gt, d@ as int, gu0 * (gu * gu) - gw);
        lemma_mod_mul_tracks(p, u@ as int, gu, uu@ as int, gu * gu);
        lemma_mod_mul_tracks(p, t0@ as int, gt0, uuu@ as int, gu * (gu * gu));
        lemma_mod_sub_tracks(
            p,
            td@ as int,
            gt * (gu0 * (gu * gu) - gw),
            t0uuu@ as int,
            gt0 * (gu * (gu * gu)),
        );
        assert(y3@ == add_y(m, n) % p);
        assert(uuu@ == add_z(m, n) % p);
    }
    if uuu.is_zero() {
        ProjectivePoint::identity()
    } else {
        ProjectivePoint { x: x3, y: y3, z: uuu }
    }
}

/// The affine coordinates of an affine conversion's result, as integers.
pub open spec fn affine_model(r: Result<(Natural, Natural), CurveError>) -> Result<
    (int, int),
    CurveError,
> {
    match r {
        Ok(c) => Ok((c.0@ as int, c.1@ as int)),
        Err(e) => Err(e),
    }
}

/// The affine coordinates `(X / Z, Y / Z)` of `point`.
///
/// Fails with `PointAtInfinity` for the point at infinity. Over a prime
/// field it fails for no other point; over another modulus it fails with
/// `DivisionByZero` where `Z` has no inverse.
pub fn to_affine(field: &Field, point: &ProjectivePoint) -> (r: Result<
    (Natural, Natural),
    CurveError,
>)
    requires
        field.wf(),
        point.wf(field),
    ensures
        affine_model(r) == spec_to_affine(field@, point.model()),
        r matches Ok(c) ==> c.0.wf() && c.1.wf() && c.0@ < field@ && c.1@ < field@,
        r is Err <==> point.model().z == 0 || !invertible(field@, point.model().z),
        is_prime(field@) ==> (r is Ok <==> point.model().z != 0),
{
    let ghost p = field@;
    let ghost m = point.model();
    proof {
        field.lemma_modulus_bound();
        lemma_small_mod(m.z as nat, p as nat);
        if is_prime(p) {
            lemma_prime_invertible(p, m.z);
        }
    }
    if point.z.is_zero() {
        return Err(CurveError::PointAtInfinity);
    }
    match field.inverse(&point.z) {
        Err(e) => Err(e),
        Ok(inverse) => Ok((field.mul(&point.x, &inverse), field.mul(&point.y, &inverse))),
    }
}

} // verus!
