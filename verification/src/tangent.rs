//! The tangent rule for doubling an affine point, and the algebra that
//! relates the doubling polynomials to it.

use crate::modular::{lemma_congruent_mul, lemma_congruent_sub, mod_div};
use vstd::arithmetic::div_mod::lemma_small_mod;
use vstd::prelude::*;

verus! {

/// The slope of the tangent at the affine point `(x, y)` of a curve with
/// `a = 0`: `3 x^2 / (2 y)`.
pub open spec fn tangent_slope(p: int, x: int, y: int) -> int {
    mod_div(p, 3 * (x * x), 2 * y)
}

/// The double of the affine point `(x, y)` by the tangent rule: with the
/// slope `s` of the tangent, `x' = s^2 - 2 x` and `y' = s (x - x') - y`.
pub open spec fn tangent_double(p: int, x: int, y: int) -> (int, int) {
    let s = tangent_slope(p, x, y);
    let x2 = (s * s - 2 * x) % p;
    let y2 = (s * (x - x2) - y) % p;
    (x2, y2)
}

/// A factor congruent to one can be dropped from a product.
pub proof fn lemma_absorb_unit(p: int, a: int, k: int)
    requires
        p >= 2,
        k % p == 1,
    ensures
        (a * k) % p == a % p,
{
    lemma_small_mod(1, p as nat);
    lemma_congruent_mul(p, a, a, k, 1);
    assert(a * 1 == a);
}

/// The cube of the inverse of `u` is the inverse of the cube of `u`.
pub proof fn lemma_cube_inverse(p: int, u: int, ui: int)
    requires
        p >= 2,
        (u * ui) % p == 1,
    ensures
        ((u * (u * u)) * (ui * (ui * ui))) % p == 1,
{
    let e = u * ui;
    assert((u * (u * u)) * (ui * (ui * ui)) == (e * e) * e) by (nonlinear_arith)
        requires
            e == u * ui,
    ;
    lemma_absorb_unit(p, e, e);
    lemma_absorb_unit(p, e * e, e);
}

/// Doubling: the affine `x` of the double, `X3 / Z3`, is `W / U`.
pub proof fn lemma_double_affine_x(p: int, w: int, u: int, ui: int)
    requires
        p >= 2,
        (u * ui) % p == 1,
    ensures
        ((w * (u * u)) * (ui * (ui * ui))) % p == (w * ui) % p,
{
    let e = u * ui;
    assert((w * (u * u)) * (ui * (ui * ui)) == (w * ui) * (e * e)) by (nonlinear_arith)
        requires
            e == u * ui,
    ;
    lemma_absorb_unit(p, e, e);
    lemma_absorb_unit(p, w * ui, e * e);
}

/// Doubling: `U` times `W / U^2` is `W / U`.
pub proof fn lemma_double_scaled_x(p: int, w: int, u: int, ui: int)
    requires
        p >= 2,
        (u * ui) % p == 1,
    ensures
        (u * (w * (ui * ui))) % p == (w * ui) % p,
{
    let e = u * ui;
    assert(u * (w * (ui * ui)) == (w * ui) * e) by (nonlinear_arith)
        requires
            e == u * ui,
    ;
    lemma_absorb_unit(p, w * ui, e);
}

/// Doubling: with the slope `T / U` and the affine `x = X / Z`, the
/// tangent rule's `x' = s^2 - 2 x` is `W / U^2`.
pub proof fn lemma_tangent_x(p: int, x: int, y: int, z: int, zi: int, ui: int)
    requires
        p >= 2,
        (z * zi) % p == 1,
        ((2 * (y * z)) * ui) % p == 1,
    ensures
        ({
            let t = 3 * (x * x);
            let u = 2 * (y * z);
            let v = 2 * ((u * x) * y);
            let w = t * t - 2 * v;
            ((t * ui) * (t * ui) - 2 * (x * zi)) % p == (w * (ui * ui)) % p
        }),
{
    let t = 3 * (x * x);
    let u = 2 * (y * z);
    let v = 2 * ((u * x) * y);
    let w = t * t - 2 * v;
    let e = u * ui;
    let f = z * zi;
    let c = (4 * (x * y)) * ui;
    assert(w * (ui * ui) == (t * ui) * (t * ui) - 2 * (v * (ui * ui))) by (nonlinear_arith)
        requires
            w == t * t - 2 * v,
    ;
    assert(2 * (v * (ui * ui)) == c * e) by (nonlinear_arith)
        requires
            v == 2 * ((u * x) * y),
            e == u * ui,
            c == (4 * (x * y)) * ui,
    ;
    assert((2 * (x * zi)) * e == c * f) by (nonlinear_arith)
        requires
            e == u * ui,
            u == 2 * (y * z),
            f == z * zi,
            c == (4 * (x * y)) * ui,
    ;
    lemma_absorb_unit(p, c, e);
    lemma_absorb_unit(p, c, f);
    lemma_absorb_unit(p, 2 * (x * zi), e);
    lemma_congruent_sub(
        p,
        (t * ui) * (t * ui),
        (t * ui) * (t * ui),
        2 * (x * zi),
        2 * (v * (ui * ui)),
    );
}

/// Doubling: with the slope `T / U`, the affine `x = X / Z` and
/// `y = Y / Z`, and `x' = W / U^2`, the tangent rule's
/// `y' = s (x - x') - y` is `Y3 / U^3`.
pub proof fn lemma_tangent_y(p: int, x: int, y: int, z: int, zi: int, ui: int)
    requires
        p >= 2,
        (z * zi) % p == 1,
        ((2 * (y * z)) * ui) % p == 1,
    ensures
        ({
            let t = 3 * (x * x);
            let u = 2 * (y * z);
            let v = 2 * ((u * x) * y);
            let w = t * t - 2 * v;
            let y3 = t * (v - w) - 2 * ((u * y) * (u * y));
            ((t * ui) * (x * zi - w * (ui * ui)) - y * zi) % p == (y3 * (ui * (ui * ui))) % p
        }),
{
    let t = 3 * (x * x);
    let u = 2 * (y * z);
    let v = 2 * ((u * x) * y);
    let w = t * t - 2 * v;
    let y3 = t * (v - w) - 2 * ((u * y) * (u * y));
    let e = u * ui;
    let f = z * zi;
    let ui3 = ui * (ui * ui);
    let a1 = (t * ui) * (x * zi);
    let a2 = (t * ui) * (w * (ui * ui));
    let a3 = y * zi;
    let b1 = t * (v * ui3);
    let b3 = (2 * ((u * y) * (u * y))) * ui3;
    let d1 = (t * (2 * (x * y))) * (ui * ui);
    let d3 = (2 * (y * y)) * ui;
    assert((t * ui) * (x * zi - w * (ui * ui)) - y * zi == a1 - a2 - a3) by (nonlinear_arith)
        requires
            a1 == (t * ui) * (x * zi),
            a2 == (t * ui) * (w * (ui * ui)),
            a3 == y * zi,
    ;
    assert(y3 * ui3 == b1 - a2 - b3) by (nonlinear_arith)
        requires
            y3 == t * (v - w) - 2 * ((u * y) * (u * y)),
            ui3 == ui * (ui * ui),
            a2 == (t * ui) * (w * (ui * ui)),
            b1 == t * (v * ui3),
            b3 == (2 * ((u * y) * (u * y))) * ui3,
    ;
    assert(b1 == d1 * e) by (nonlinear_arith)
        requires
            b1 == t * (v * ui3),
            ui3 == ui * (ui * ui),
            v == 2 * ((u * x) * y),
            e == u * ui,
            d1 == (t * (2 * (x * y))) * (ui * ui),
    ;
    let g = t * (ui * ui);
    assert(a1 * e == g * ((x * zi) * u)) by (nonlinear_arith)
        requires
            a1 == (t * ui) * (x * zi),
            e == u * ui,
            g == t * (ui * ui),
    ;
    assert((x * zi) * u == (2 * (x * y)) * f) by (nonlinear_arith)
        requires
            u == 2 * (y * z),
            f == z * zi,
    ;
    assert(d1 * f == g * ((2 * (x * y)) * f)) by (nonlinear_arith)
        requires
            d1 == (t * (2 * (x * y))) * (ui * ui),
            g == t * (ui * ui),
    ;
    assert(a1 * e == d1 * f);
    assert(b3 == d3 * (e * e)) by (nonlinear_arith)
        requires
            b3 == (2 * ((u * y) * (u * y))) * ui3,
            ui3 == ui * (ui * ui),
            e == u * ui,
            d3 == (2 * (y * y)) * ui,
    ;
    assert(a3 * e == d3 * f) by (nonlinear_arith)
        requires
            a3 == y * zi,
            e == u * ui,
            u == 2 * (y * z),
            f == z * zi,
            d3 == (2 * (y * y)) * ui,
    ;
    lemma_absorb_unit(p, d1, e);
    lemma_absorb_unit(p, d1, f);
    lemma_absorb_unit(p, a1, e);
    assert(a1 % p == b1 % p);
    lemma_absorb_unit(p, e, e);
    lemma_absorb_unit(p, d3, e * e);
    lemma_absorb_unit(p, d3, f);
    lemma_absorb_unit(p, a3, e);
    assert(a3 % p == b3 % p);
    lemma_congruent_sub(p, a1, b1, a2, a2);
    lemma_congruent_sub(p, a1 - a2, b1 - a2, a3, b3);
}

/// Doubling: `U Z / (U Z^2)`, that is `Z^2 / U`, is the inverse of
/// `2 y` for the affine `y = Y / Z`, and the tangent's slope
/// `3 x^2 / (2 y)` at the affine `x = X / Z` is `T / U`.
pub proof fn lemma_tangent_slope(p: int, x: int, y: int, z: int, zi: int, ui: int)
    requires
        p >= 2,
        (z * zi) % p == 1,
        ((2 * (y * z)) * ui) % p == 1,
    ensures
        ((2 * (y * zi)) * (ui * (z * z))) % p == 1,
        ((3 * ((x * zi) * (x * zi))) * (ui * (z * z))) % p == ((3 * (x * x)) * ui) % p,
{
    let u = 2 * (y * z);
    let t = 3 * (x * x);
    let e = u * ui;
    let f = z * zi;
    assert((2 * (y * zi)) * (ui * (z * z)) == e * f) by (nonlinear_arith)
        requires
            e == u * ui,
            u == 2 * (y * z),
            f == z * zi,
    ;
    lemma_absorb_unit(p, e, f);
    assert((3 * ((x * zi) * (x * zi))) * (ui * (z * z)) == (t * ui) * (f * f)) by (nonlinear_arith)
        requires
            t == 3 * (x * x),
            f == z * zi,
    ;
    lemma_absorb_unit(p, f, f);
    lemma_absorb_unit(p, t * ui, f * f);
}

} // verus!
