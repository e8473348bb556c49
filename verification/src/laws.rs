//! Algebraic facts about the point operations, stated over the models that
//! their contracts use.

use crate::error::CurveError;
use crate::modular::{
    invertible, is_inverse, is_prime, lemma_congruent_mul, lemma_congruent_residue,
    lemma_congruent_sub, lemma_inverse_unique, lemma_mod_inverse_is_inverse,
    lemma_prime_invertible, lemma_zero_not_invertible, mod_div, mod_inverse, mod_mul,
};
use crate::point::{
    add_t, add_t0, add_t1, add_u, add_u0, add_u1, add_v, add_w, add_x, add_y, add_z, double_t,
    double_u, double_w, double_x, double_y, double_z, identity_model, point_of, spec_add,
    spec_double, spec_from_affine, spec_to_affine, valid_point, PointModel,
};
use crate::tangent::{
    lemma_absorb_unit, lemma_cube_inverse, lemma_double_affine_x, lemma_double_scaled_x,
    lemma_tangent_slope, lemma_tangent_x, lemma_tangent_y, tangent_double, tangent_slope,
};
use vstd::arithmetic::div_mod::lemma_small_mod;
use vstd::prelude::*;

verus! {

/// The point at infinity is the identity of addition: added on either side,
/// it leaves every valid point as it is.
pub proof fn law_add_identity(p: int, m: PointModel)
    requires
        p >= 2,
        valid_point(p, m),
    ensures
        spec_add(p, m, identity_model()) == m,
        spec_add(p, identity_model(), m) == m,
{
    lemma_small_mod(m.z as nat, p as nat);
    lemma_small_mod(0, p as nat);
}

/// A valid point added to itself is its double, and so both have the same
/// affine coordinates.
pub proof fn law_add_self_is_double(p: int, m: PointModel)
    requires
        p >= 2,
        valid_point(p, m),
    ensures
        spec_add(p, m, m) == spec_double(p, m),
        spec_to_affine(p, spec_add(p, m, m)) == spec_to_affine(p, spec_double(p, m)),
{
    lemma_small_mod(m.z as nat, p as nat);
    lemma_small_mod(0, p as nat);
}

/// The point at infinity has no affine coordinates.
pub proof fn law_identity_not_affine(p: int)
    requires
        p >= 2,
    ensures
        spec_to_affine(p, identity_model()) == Err::<(int, int), CurveError>(
            CurveError::PointAtInfinity,
        ),
{
    lemma_small_mod(0, p as nat);
}

/// An affine point lifted to projective coordinates and converted back is
/// the point that was lifted, with its coordinates reduced.
pub proof fn law_affine_round_trip(p: int, x: int, y: int)
    requires
        p >= 2,
    ensures
        spec_to_affine(p, spec_from_affine(p, x, y)) == Ok::<(int, int), CurveError>(
            (x % p, y % p),
        ),
        0 <= x < p && 0 <= y < p ==> spec_to_affine(p, spec_from_affine(p, x, y)) == Ok::<
            (int, int),
            CurveError,
        >((x, y)),
{
    lemma_small_mod(1, p as nat);
    assert(is_inverse(p, 1, 1));
    lemma_mod_inverse_is_inverse(p, 1);
    lemma_inverse_unique(p, 1, 1, mod_inverse(p, 1));
    lemma_congruent_residue(p, x);
    lemma_congruent_residue(p, y);
    assert((x % p) * 1 == x % p);
    assert((y % p) * 1 == y % p);
    if 0 <= x < p {
        lemma_small_mod(x as nat, p as nat);
    }
    if 0 <= y < p {
        lemma_small_mod(y as nat, p as nat);
    }
}

/// Where addition gives the same point in either order:
///
/// * one of the two points is the point at infinity; or
/// * `U` vanishes, so that the two lie over the same `x`, and they are
///   either opposite (`T` does not vanish) or two forms of one point with
///   the same double; or
/// * `U` does not vanish, and either `Z3` does, or `2 Y3` and `2 Z3` do.
///   Modulo an odd prime that never happens; modulo two it always does.
pub open spec fn add_commutes_at(p: int, m: PointModel, n: PointModel) -> bool {
    ||| m.z == 0
    ||| n.z == 0
    ||| (add_u(m, n) % p == 0 && (add_t(m, n) % p != 0 || spec_double(p, m) == spec_double(p, n)))
    ||| (add_u(m, n) % p != 0 && (add_z(m, n) % p == 0 || ((2 * add_y(m, n)) % p == 0 && (2
        * add_z(m, n)) % p == 0)))
}

/// A number is congruent to its negative exactly when `p` divides its
/// double.
proof fn lemma_own_negative(p: int, a: int)
    requires
        p >= 2,
    ensures
        (-a) % p == a % p <==> (2 * a) % p == 0,
{
    lemma_small_mod(0, p as nat);
    if (-a) % p == a % p {
        lemma_congruent_sub(p, a, -a, -a, -a);
        assert(a - (-a) == 2 * a);
    }
    if (2 * a) % p == 0 {
        lemma_congruent_sub(p, 2 * a, 0, a, a);
        assert(2 * a - a == a);
        assert(0 - a == -a);
    }
}

/// Addition gives the same point in either order wherever
/// `add_commutes_at` holds.
///
/// Everywhere else the two orders differ in the signs of `Y3` and `Z3`
/// (see `law_add_swapped`), and so in the sign of the affine `x`.
pub proof fn law_add_commutes(p: int, m: PointModel, n: PointModel)
    requires
        p >= 2,
        valid_point(p, m),
        valid_point(p, n),
        add_commutes_at(p, m, n),
    ensures
        spec_add(p, m, n) == spec_add(p, n, m),
{
    lemma_small_mod(m.z as nat, p as nat);
    lemma_small_mod(n.z as nat, p as nat);
    lemma_small_mod(0, p as nat);
    if m.z != 0 && n.z != 0 {
        lemma_add_polynomials_swapped(m, n);
        lemma_negation_vanishes(p, add_u(m, n));
        lemma_negation_vanishes(p, add_t(m, n));
        lemma_negation_vanishes(p, add_z(m, n));
        lemma_own_negative(p, add_y(m, n));
        lemma_own_negative(p, add_z(m, n));
    }
}

/// Addition gives the same point in either order nowhere but where
/// `add_commutes_at` holds.
pub proof fn law_add_commutes_only_there(p: int, m: PointModel, n: PointModel)
    requires
        p >= 2,
        valid_point(p, m),
        valid_point(p, n),
        spec_add(p, m, n) == spec_add(p, n, m),
    ensures
        add_commutes_at(p, m, n),
{
    lemma_small_mod(m.z as nat, p as nat);
    lemma_small_mod(n.z as nat, p as nat);
    lemma_small_mod(0, p as nat);
    if m.z != 0 && n.z != 0 {
        lemma_add_polynomials_swapped(m, n);
        lemma_negation_vanishes(p, add_u(m, n));
        lemma_negation_vanishes(p, add_t(m, n));
        lemma_negation_vanishes(p, add_z(m, n));
        lemma_own_negative(p, add_y(m, n));
        lemma_own_negative(p, add_z(m, n));
    }
}

/// A reduced number that is an inverse of `a` is `mod_inverse` of `a`.
proof fn lemma_inverse_found(p: int, a: int, r: int)
    requires
        p >= 2,
        (a * r) % p == 1,
    ensures
        invertible(p, a),
        a % p != 0,
        mod_inverse(p, a) == r % p,
{
    lemma_congruent_residue(p, r);
    lemma_congruent_mul(p, a, a, r % p, r);
    assert(is_inverse(p, a, r % p));
    lemma_mod_inverse_is_inverse(p, a);
    lemma_inverse_unique(p, a, r % p, mod_inverse(p, a));
    if a % p == 0 {
        lemma_zero_not_invertible(p, a);
    }
}

/// Doubling against the tangent rule.
///
/// Take a valid point whose `Z` and whose `U = 2 Y Z` have inverses; modulo
/// a prime, that is every point but the point at infinity and the points
/// with `Y = 0`. Let `(x', y')` be the double of its affine form by the
/// tangent rule. Then the double of the point has the affine coordinates
/// `(U x', y')`: the `y` of the tangent rule, and `U` times its `x`.
pub proof fn law_double_follows_tangent(p: int, m: PointModel)
    requires
        p >= 2,
        valid_point(p, m),
        invertible(p, m.z),
        invertible(p, double_u(m)),
    ensures
        ({
            let x = mod_div(p, m.x, m.z);
            let y = mod_div(p, m.y, m.z);
            let d = tangent_double(p, x, y);
            &&& spec_to_affine(p, m) == Ok::<(int, int), CurveError>((x, y))
            &&& invertible(p, 2 * y)
            &&& spec_to_affine(p, spec_double(p, m)) == Ok::<(int, int), CurveError>(
                (mod_mul(p, double_u(m), d.0), d.1),
            )
        }),
{
    let zi = mod_inverse(p, m.z);
    let ui = mod_inverse(p, double_u(m));
    let t = double_t(m);
    let u = double_u(m);
    let w = double_w(m);
    lemma_mod_inverse_is_inverse(p, m.z);
    lemma_mod_inverse_is_inverse(p, u);
    if m.z % p == 0 {
        lemma_zero_not_invertible(p, m.z);
    }
    if u % p == 0 {
        lemma_zero_not_invertible(p, u);
    }
    // the double, and the inverse of its z
    let ui3 = ui * (ui * ui);
    let xr = double_x(m) % p;
    let yr = double_y(m) % p;
    let zr = double_z(m) % p;
    lemma_cube_inverse(p, u, ui);
    lemma_congruent_residue(p, double_x(m));
    lemma_congruent_residue(p, double_y(m));
    lemma_congruent_residue(p, double_z(m));
    lemma_congruent_mul(p, zr, double_z(m), ui3, ui3);
    lemma_inverse_found(p, zr, ui3);
    assert(spec_double(p, m) == PointModel { x: xr, y: yr, z: zr });
    lemma_congruent_residue(p, ui3);
    let zri = mod_inverse(p, zr);
    lemma_congruent_mul(p, xr, double_x(m), zri, ui3);
    lemma_congruent_mul(p, yr, double_y(m), zri, ui3);
    lemma_double_affine_x(p, w, u, ui);
    assert(mod_div(p, xr, zr) == (w * ui) % p);
    assert(mod_div(p, yr, zr) == (double_y(m) * ui3) % p);
    // the affine form of the point, and the slope of its tangent
    let x = mod_div(p, m.x, m.z);
    let y = mod_div(p, m.y, m.z);
    lemma_congruent_residue(p, m.x * zi);
    lemma_congruent_residue(p, m.y * zi);
    lemma_tangent_slope(p, m.x, m.y, m.z, zi, ui);
    let half = ui * (m.z * m.z);
    lemma_congruent_mul(p, 2, 2, y, m.y * zi);
    lemma_congruent_mul(p, 2 * y, 2 * (m.y * zi), half, half);
    lemma_inverse_found(p, 2 * y, half);
    lemma_congruent_residue(p, half);
    let s = tangent_slope(p, x, y);
    lemma_congruent_mul(p, x, m.x * zi, x, m.x * zi);
    lemma_congruent_mul(p, 3, 3, x * x, (m.x * zi) * (m.x * zi));
    lemma_congruent_mul(
        p,
        3 * (x * x),
        3 * ((m.x * zi) * (m.x * zi)),
        mod_inverse(p, 2 * y),
        half,
    );
    lemma_congruent_residue(p, (3 * (x * x)) * mod_inverse(p, 2 * y));
    assert(s % p == (t * ui) % p);
    // the tangent rule's x
    let d = tangent_double(p, x, y);
    lemma_congruent_mul(p, s, t * ui, s, t * ui);
    lemma_congruent_mul(p, 2, 2, x, m.x * zi);
    lemma_congruent_sub(p, s * s, (t * ui) * (t * ui), 2 * x, 2 * (m.x * zi));
    lemma_tangent_x(p, m.x, m.y, m.z, zi, ui);
    lemma_congruent_residue(p, s * s - 2 * x);
    assert(d.0 % p == (w * (ui * ui)) % p);
    lemma_congruent_mul(p, u, u, d.0, w * (ui * ui));
    lemma_double_scaled_x(p, w, u, ui);
    assert(mod_mul(p, u, d.0) == (w * ui) % p);
    // the tangent rule's y
    lemma_congruent_sub(p, x, m.x * zi, d.0, w * (ui * ui));
    lemma_congruent_mul(p, s, t * ui, x - d.0, m.x * zi - w * (ui * ui));
    lemma_congruent_sub(
        p,
        s * (x - d.0),
        (t * ui) * (m.x * zi - w * (ui * ui)),
        y,
        m.y * zi,
    );
    lemma_tangent_y(p, m.x, m.y, m.z, zi, ui);
    assert(d.1 == (double_y(m) * ui3) % p);
}

/// What the tangent rule gives for the affine form of a point: the point
/// at infinity doubles to itself, an affine point with `2 y = 0` has a
/// vertical tangent and doubles to the point at infinity, and every other
/// affine point doubles to `tangent_double`.
pub open spec fn tangent_rule(p: int, a: Result<(int, int), CurveError>) -> Result<
    (int, int),
    CurveError,
> {
    match a {
        Ok(c) => if (2 * c.1) % p == 0 {
            Err(CurveError::PointAtInfinity)
        } else {
            Ok(tangent_double(p, c.0, c.1))
        },
        Err(e) => Err(e),
    }
}

/// Where doubling agrees with the tangent rule: at the point at infinity,
/// at the points whose `U = 2 Y Z` vanishes, and at the points where `U`
/// leaves the tangent rule's `x` as it is.
pub open spec fn double_is_tangent_rule_at(p: int, m: PointModel) -> bool {
    m.z != 0 && double_u(m) % p != 0 ==> ({
        let d = tangent_double(p, mod_div(p, m.x, m.z), mod_div(p, m.y, m.z));
        mod_mul(p, double_u(m), d.0) == d.0
    })
}

/// Modulo a prime, a valid point's affine form and the tangent rule's
/// result for it.
proof fn lemma_tangent_rule_cases(p: int, m: PointModel)
    requires
        is_prime(p),
        valid_point(p, m),
    ensures
        m.z == 0 || double_u(m) % p == 0 ==> spec_to_affine(p, spec_double(p, m)) == tangent_rule(
            p,
            spec_to_affine(p, m),
        ),
        m.z != 0 && double_u(m) % p != 0 ==> ({
            let d = tangent_double(p, mod_div(p, m.x, m.z), mod_div(p, m.y, m.z));
            &&& tangent_rule(p, spec_to_affine(p, m)) == Ok::<(int, int), CurveError>(d)
            &&& spec_to_affine(p, spec_double(p, m)) == Ok::<(int, int), CurveError>(
                (mod_mul(p, double_u(m), d.0), d.1),
            )
        }),
{
    lemma_small_mod(0, p as nat);
    lemma_small_mod(m.z as nat, p as nat);
    lemma_prime_invertible(p, m.z);
    lemma_prime_invertible(p, double_u(m));
    if m.z != 0 {
        let zi = mod_inverse(p, m.z);
        let y = mod_div(p, m.y, m.z);
        lemma_mod_inverse_is_inverse(p, m.z);
        if double_u(m) % p == 0 {
            // 2 y is U / Z^2, and so vanishes with U
            let f = m.z * zi;
            lemma_congruent_residue(p, m.y * zi);
            lemma_congruent_mul(p, 2, 2, y, m.y * zi);
            assert((2 * (m.y * zi)) * f == double_u(m) * (zi * zi)) by (nonlinear_arith)
                requires
                    f == m.z * zi,
                    double_u(m) == 2 * (m.y * m.z),
            ;
            lemma_absorb_unit(p, 2 * (m.y * zi), f);
            lemma_congruent_mul(p, double_u(m), 0, zi * zi, zi * zi);
            assert(0 * (zi * zi) == 0);
            assert((2 * y) % p == 0);
        } else {
            law_double_follows_tangent(p, m);
            if (2 * y) % p == 0 {
                lemma_zero_not_invertible(p, 2 * y);
            }
        }
    }
}

/// Modulo a prime, the double of a valid point has the affine coordinates
/// that the tangent rule gives for the point's affine form, wherever
/// `double_is_tangent_rule_at` holds.
///
/// The condition is needed: the doubling polynomials give `U` times the
/// `x` of the tangent rule (see `law_double_follows_tangent`).
pub proof fn law_double_is_tangent_rule(p: int, m: PointModel)
    requires
        is_prime(p),
        valid_point(p, m),
        double_is_tangent_rule_at(p, m),
    ensures
        spec_to_affine(p, spec_double(p, m)) == tangent_rule(p, spec_to_affine(p, m)),
{
    lemma_tangent_rule_cases(p, m);
}

/// Modulo a prime, the double of a valid point has the affine coordinates
/// of the tangent rule nowhere but where `double_is_tangent_rule_at`
/// holds.
pub proof fn law_double_is_tangent_rule_only_there(p: int, m: PointModel)
    requires
        is_prime(p),
        valid_point(p, m),
        spec_to_affine(p, spec_double(p, m)) == tangent_rule(p, spec_to_affine(p, m)),
    ensures
        double_is_tangent_rule_at(p, m),
{
    lemma_tangent_rule_cases(p, m);
}

/// The negative of a number is a multiple of `p` exactly when the number
/// is.
proof fn lemma_negation_vanishes(p: int, a: int)
    requires
        p >= 2,
    ensures
        (-a) % p == 0 <==> a % p == 0,
{
    lemma_small_mod(0, p as nat);
    if a % p == 0 {
        lemma_congruent_sub(p, 0, 0, a, 0);
    }
    if (-a) % p == 0 {
        lemma_congruent_sub(p, 0, 0, -a, 0);
        assert(0 - (-a) == a);
    }
}

/// The addition polynomials with the two points exchanged: `X3` stays, and
/// `Y3` and `Z3` change their signs.
pub proof fn lemma_add_polynomials_swapped(m: PointModel, n: PointModel)
    ensures
        add_t(n, m) == -add_t(m, n),
        add_u(n, m) == -add_u(m, n),
        add_w(n, m) == add_w(m, n),
        add_x(n, m) == add_x(m, n),
        add_y(n, m) == -add_y(m, n),
        add_z(n, m) == -add_z(m, n),
{
    let t = add_t(m, n);
    let u = add_u(m, n);
    let t0 = add_t0(m, n);
    let t1 = add_t1(m, n);
    let u0 = add_u0(m, n);
    let u1 = add_u1(m, n);
    let v = add_v(m, n);
    let w = add_w(m, n);
    assert(add_t0(n, m) == t1 && add_t1(n, m) == t0);
    assert(add_u0(n, m) == u1 && add_u1(n, m) == u0);
    assert(add_v(n, m) == v) by (nonlinear_arith)
        requires
            add_v(n, m) == n.z * m.z,
            v == m.z * n.z,
    ;
    assert((-t) * (-t) == t * t) by (nonlinear_arith);
    assert((-u) * (-u) == u * u) by (nonlinear_arith);
    assert(add_w(n, m) == w);
    assert((-u) * (u * u) == -(u * (u * u))) by (nonlinear_arith);
    assert(add_z(n, m) == -add_z(m, n));
    let uu = u * u;
    let uuu = u * uu;
    assert((-t) * (u1 * uu - w) - t1 * (-uuu) == -(t * (u0 * uu - w) - t0 * uuu))
        by (nonlinear_arith)
        requires
            t == t0 - t1,
            u == u0 - u1,
            uuu == u * uu,
    ;
}

/// Addition in the other order.
///
/// Where neither point is the point at infinity and `U` does not vanish,
/// exchanging the two points keeps `X3` and changes the signs of `Y3` and
/// `Z3`. The sum in the other order then has the same affine `y` and the
/// opposite affine `x`, and fails exactly when the sum in this order does.
pub proof fn law_add_swapped(p: int, m: PointModel, n: PointModel)
    requires
        p >= 2,
        valid_point(p, m),
        valid_point(p, n),
        m.z != 0,
        n.z != 0,
        add_u(m, n) % p != 0,
    ensures
        spec_add(p, m, n) == point_of(p, add_x(m, n), add_y(m, n), add_z(m, n)),
        spec_add(p, n, m) == point_of(p, add_x(m, n), -add_y(m, n), -add_z(m, n)),
        match spec_to_affine(p, spec_add(p, m, n)) {
            Ok(c) => spec_to_affine(p, spec_add(p, n, m)) == Ok::<(int, int), CurveError>(
                ((-c.0) % p, c.1),
            ),
            Err(e) => spec_to_affine(p, spec_add(p, n, m)) == Err::<(int, int), CurveError>(e),
        },
{
    lemma_small_mod(m.z as nat, p as nat);
    lemma_small_mod(n.z as nat, p as nat);
    lemma_small_mod(0, p as nat);
    lemma_add_polynomials_swapped(m, n);
    lemma_negation_vanishes(p, add_u(m, n));
    let x3 = add_x(m, n);
    let y3 = add_y(m, n);
    let z3 = add_z(m, n);
    lemma_negation_vanishes(p, z3);
    if z3 % p != 0 {
        let a = spec_add(p, m, n);
        let b = spec_add(p, n, m);
        lemma_congruent_residue(p, x3);
        lemma_congruent_residue(p, y3);
        lemma_congruent_residue(p, z3);
        lemma_congruent_residue(p, -y3);
        lemma_congruent_residue(p, -z3);
        if invertible(p, a.z) {
            let r = mod_inverse(p, a.z);
            lemma_mod_inverse_is_inverse(p, a.z);
            lemma_congruent_mul(p, a.z, z3, r, r);
            lemma_congruent_mul(p, b.z, -z3, -r, -r);
            assert((-z3) * (-r) == z3 * r) by (nonlinear_arith);
            lemma_inverse_found(p, b.z, -r);
            lemma_congruent_residue(p, -r);
            let ri = mod_inverse(p, b.z);
            // x
            lemma_congruent_mul(p, b.x, a.x, ri, -r);
            assert(a.x * (-r) == 0 - a.x * r) by (nonlinear_arith);
            lemma_congruent_residue(p, a.x * r);
            lemma_congruent_sub(p, 0, 0, a.x * r, (a.x * r) % p);
            // y
            lemma_congruent_mul(p, b.y, -y3, ri, -r);
            assert((-y3) * (-r) == y3 * r) by (nonlinear_arith);
            lemma_congruent_mul(p, a.y, y3, r, r);
        } else {
            if invertible(p, b.z) {
                let r = mod_inverse(p, b.z);
                lemma_mod_inverse_is_inverse(p, b.z);
                lemma_congruent_mul(p, b.z, -z3, r, r);
                lemma_congruent_mul(p, a.z, z3, -r, -r);
                assert(z3 * (-r) == (-z3) * r) by (nonlinear_arith);
                lemma_inverse_found(p, a.z, -r);
            }
        }
    }
}

} // verus!
