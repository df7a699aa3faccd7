//! General laws of the evaluator, stated over the spec-level model that the
//! contract of `distance_to_surface` ties every result to.

use vstd::prelude::*;
use crate::arith::{
    abs_val, lemma_sq_nonneg, lemma_sqrt_floor_bounds, lemma_sqrt_floor_div,
    lemma_sqrt_floor_monotone, lemma_sqrt_floor_square, lemma_sqrt_floor_unique, sq, sqrt_floor,
};
use crate::surface::{
    cone_value, plane_value, ray_param, ring_gap, spec_evaluate, CSGSurface, Point, Vector,
};
use vstd::arithmetic::div_mod::{
    lemma_div_multiples_vanish_quotient, lemma_div_pos_is_pos, lemma_fundamental_div_mod,
    lemma_mod_bound,
};
use vstd::arithmetic::mul::{lemma_mul_inequality, lemma_mul_strict_inequality};

verus! {

/// Law: every variant but the three axis-aligned planes ignores the
/// direction — two evaluations at the same point agree whatever the two
/// directions are.
pub proof fn lemma_direction_ignored(s: CSGSurface, p: Point, v1: Vector, v2: Vector)
    requires
        !(s is XPlane),
        !(s is YPlane),
        !(s is ZPlane),
    ensures
        spec_evaluate(s, p, v1) == spec_evaluate(s, p, v2),
{
}

/// Law: evaluation is a pure function of its inputs — two results obtained
/// from identical inputs are identical.
pub proof fn lemma_evaluate_deterministic(
    s: CSGSurface,
    p: Point,
    v: Vector,
    r1: Option<int>,
    r2: Option<int>,
)
    requires
        r1 == spec_evaluate(s, p, v),
        r2 == spec_evaluate(s, p, v),
    ensures
        r1 == r2,
{
}

/// Law: whenever evaluation yields a value, that value is non-negative.
pub proof fn lemma_value_nonnegative(s: CSGSurface, p: Point, v: Vector)
    requires
        s.wf(),
    ensures
        spec_evaluate(s, p, v) matches Some(t) ==> t >= 0,
{
    match s {
        CSGSurface::XPlane { x } => {
            if v.dx != 0 && !((x - p.x) * (v.dx as int) < 0) {
                lemma_div_pos_is_pos(abs_val(x - p.x), abs_val(v.dx as int));
            }
        },
        CSGSurface::YPlane { y } => {
            if v.dy != 0 && !((y - p.y) * (v.dy as int) < 0) {
                lemma_div_pos_is_pos(abs_val(y - p.y), abs_val(v.dy as int));
            }
        },
        CSGSurface::ZPlane { z } => {
            if v.dz != 0 && !((z - p.z) * (v.dz as int) < 0) {
                lemma_div_pos_is_pos(abs_val(z - p.z), abs_val(v.dz as int));
            }
        },
        _ => {},
    }
}

/// The squared norm of a nonzero integer vector is at least 1.
proof fn lemma_plane_norm_pos(a: int, b: int, c: int)
    requires
        !(a == 0 && b == 0 && c == 0),
    ensures
        sq(a) + sq(b) + sq(c) >= 1,
{
    lemma_sq_nonneg(a);
    lemma_sq_nonneg(b);
    lemma_sq_nonneg(c);
    if a != 0 {
        assert(a * a >= 1) by (nonlinear_arith)
            requires
                a != 0,
        ;
    } else if b != 0 {
        assert(b * b >= 1) by (nonlinear_arith)
            requires
                b != 0,
        ;
    } else {
        assert(c * c >= 1) by (nonlinear_arith)
            requires
                c != 0,
        ;
    }
}

/// Law: a shell value (sphere or axis cylinder) is zero exactly when the
/// squared distance to the center or axis puts the point on the shell of
/// the given radius: `radius` is non-negative and is the floor root of the
/// squared distance.
pub proof fn lemma_ring_gap_zero_iff(d2: int, radius: int)
    requires
        d2 >= 0,
    ensures
        ring_gap(d2, radius) == 0 <==> (radius >= 0 && radius * radius <= d2 < (radius + 1) * (
        radius + 1)),
{
    lemma_sqrt_floor_bounds(d2 as nat);
    if radius >= 0 && radius * radius <= d2 < (radius + 1) * (radius + 1) {
        lemma_sqrt_floor_unique(d2 as nat, radius as nat);
    }
}

/// Law: a point whose squared distance to the center or axis is exactly
/// `radius * radius` lies on the shell and gets value zero.
pub proof fn lemma_ring_gap_on_surface(d2: int, radius: int)
    requires
        radius >= 0,
        d2 == radius * radius,
    ensures
        ring_gap(d2, radius) == 0,
{
    lemma_sqrt_floor_square(radius as nat);
}

/// Law: a sphere evaluates to zero at any point whose squared distance to
/// the center is exactly the squared radius, whatever the direction.
pub proof fn lemma_sphere_zero_on_surface(
    x: i64,
    y: i64,
    z: i64,
    radius: i64,
    p: Point,
    v: Vector,
)
    requires
        radius >= 0,
        sq(p.x - x) + sq(p.y - y) + sq(p.z - z) == radius * radius,
    ensures
        spec_evaluate((CSGSurface::Sphere { x, y, z, radius }), p, v) == Some(0int),
{
    lemma_ring_gap_on_surface(sq(p.x - x) + sq(p.y - y) + sq(p.z - z), radius as int);
}

/// Law: an axis-aligned cylinder evaluates to zero exactly when the
/// transverse distance to its axis equals its radius (as a floor root),
/// whatever the direction.
pub proof fn lemma_cylinder_zero_iff(cx: i64, cy: i64, cz: i64, radius: i64, p: Point, v: Vector)
    ensures
        spec_evaluate((CSGSurface::XAxisCylinder { y: cy, z: cz, radius }), p, v) == Some(0int)
            <==> (radius >= 0 && radius * radius <= sq(p.y - cy) + sq(p.z - cz) < (radius + 1) * (
        radius + 1)),
        spec_evaluate((CSGSurface::YAxisCylinder { x: cx, z: cz, radius }), p, v) == Some(0int)
            <==> (radius >= 0 && radius * radius <= sq(p.x - cx) + sq(p.z - cz) < (radius + 1) * (
        radius + 1)),
        spec_evaluate((CSGSurface::ZAxisCylinder { x: cx, y: cy, radius }), p, v) == Some(0int)
            <==> (radius >= 0 && radius * radius <= sq(p.x - cx) + sq(p.y - cy) < (radius + 1) * (
        radius + 1)),
{
    lemma_sq_nonneg(p.x - cx);
    lemma_sq_nonneg(p.y - cy);
    lemma_sq_nonneg(p.z - cz);
    lemma_ring_gap_zero_iff(sq(p.y - cy) + sq(p.z - cz), radius as int);
    lemma_ring_gap_zero_iff(sq(p.x - cx) + sq(p.z - cz), radius as int);
    lemma_ring_gap_zero_iff(sq(p.x - cx) + sq(p.y - cy), radius as int);
}

/// Law: an axis-aligned plane query yields no value exactly when the ray is
/// parallel to the plane or the exact parameter would be negative; a
/// present value is the floor of the exact non-negative ray parameter.
pub proof fn lemma_ray_param_cases(offset: int, coord: int, delta: int)
    ensures
        ray_param(offset, coord, delta) is None <==> (delta == 0 || (offset - coord) * delta < 0),
        ray_param(offset, coord, delta) matches Some(t) ==> t == abs_val(offset - coord) / abs_val(
            delta,
        ),
        ray_param(offset, coord, delta) matches Some(t) ==> t >= 0,
        ray_param(offset, coord, delta) matches Some(t) ==> t * abs_val(delta) <= abs_val(
            offset - coord,
        ) < (t + 1) * abs_val(delta),
{
    if delta != 0 && !((offset - coord) * delta < 0) {
        let n: int = abs_val(offset - coord);
        let d: int = abs_val(delta);
        let t: int = n / d;
        lemma_div_pos_is_pos(n, d);
        lemma_fundamental_div_mod(n, d);
        lemma_mod_bound(n, d);
        assert(d * t == t * d) by (nonlinear_arith);
        assert((t + 1) * d == t * d + d) by (nonlinear_arith);
    }
}

/// Law: scaling all four parameters of a general plane by any nonzero
/// factor leaves the returned distance unchanged: numerator and
/// denominator of the exact quotient scale by the same factor, and the
/// value floors that quotient as a whole.
pub proof fn lemma_plane_scale_invariant(a: int, b: int, c: int, d: int, k: int, p: Point)
    requires
        k != 0,
        !(a == 0 && b == 0 && c == 0),
    ensures
        plane_value(k * a, k * b, k * c, k * d, p) == plane_value(a, b, c, d, p),
{
    let px: int = p.x as int;
    let py: int = p.y as int;
    let pz: int = p.z as int;
    let n: int = a * px + b * py + c * pz + d;
    let kn: int = (k * a) * px + (k * b) * py + (k * c) * pz + (k * d);
    let s2: int = sq(a) + sq(b) + sq(c);
    let ks2: int = sq(k * a) + sq(k * b) + sq(k * c);
    assert((k * a) * px == k * (a * px)) by (nonlinear_arith);
    assert((k * b) * py == k * (b * py)) by (nonlinear_arith);
    assert((k * c) * pz == k * (c * pz)) by (nonlinear_arith);
    assert(k * (a * px) + k * (b * py) + k * (c * pz) + k * d == k * (a * px + b * py + c * pz + d))
        by (nonlinear_arith);
    assert(kn == k * n);
    // The scaled squared numerator and squared normal length both carry the
    // factor `k * k`, which the quotient cancels.
    assert((k * n) * (k * n) == (k * k) * (n * n)) by (nonlinear_arith);
    assert((k * a) * (k * a) == (k * k) * (a * a)) by (nonlinear_arith);
    assert((k * b) * (k * b) == (k * k) * (b * b)) by (nonlinear_arith);
    assert((k * c) * (k * c) == (k * k) * (c * c)) by (nonlinear_arith);
    assert((k * k) * (a * a) + (k * k) * (b * b) + (k * k) * (c * c) == (k * k) * (a * a + b * b + c
        * c)) by (nonlinear_arith);
    assert(ks2 == (k * k) * s2);
    lemma_plane_norm_pos(a, b, c);
    assert(k * k >= 1) by (nonlinear_arith)
        requires
            k != 0,
    ;
    assert(n * n >= 0) by (nonlinear_arith);
    lemma_div_multiples_vanish_quotient(k * k, n * n, s2);
}

/// Law: the plane value is the floor of the exact point-plane distance —
/// the largest `t >= 0` whose square times the squared normal length stays
/// within the square of the plane form at the point.
pub proof fn lemma_plane_value_floor(a: int, b: int, c: int, d: int, p: Point)
    requires
        !(a == 0 && b == 0 && c == 0),
    ensures
        plane_value(a, b, c, d, p) >= 0,
        plane_value(a, b, c, d, p) * plane_value(a, b, c, d, p) * (sq(a) + sq(b) + sq(c)) <= (a
            * p.x + b * p.y + c * p.z + d) * (a * p.x + b * p.y + c * p.z + d),
        (a * p.x + b * p.y + c * p.z + d) * (a * p.x + b * p.y + c * p.z + d) < (plane_value(
            a,
            b,
            c,
            d,
            p,
        ) + 1) * (plane_value(a, b, c, d, p) + 1) * (sq(a) + sq(b) + sq(c)),
{
    lemma_plane_norm_pos(a, b, c);
    let n: int = a * p.x + b * p.y + c * p.z + d;
    assert(n * n >= 0) by (nonlinear_arith);
    lemma_sqrt_floor_div(n * n, sq(a) + sq(b) + sq(c));
}

/// Law: a cone evaluates to zero exactly on its surface — where the axial
/// offset's magnitude equals the transverse floor distance times the slope.
pub proof fn lemma_cone_zero_iff(axial: int, d2: int, slope: int)
    requires
        d2 >= 0,
    ensures
        cone_value(axial, d2, slope) == 0 <==> abs_val(axial) == sqrt_floor(d2 as nat) * slope,
{
}

/// Law: at a fixed axial offset, moving the point transversally away from
/// a cone that it is on or outside of never decreases the value.
pub proof fn lemma_cone_monotone_away(axial: int, d2a: int, d2b: int, slope: int)
    requires
        0 <= d2a <= d2b,
        slope >= 0,
        abs_val(axial) <= sqrt_floor(d2a as nat) * slope,
    ensures
        cone_value(axial, d2a, slope) <= cone_value(axial, d2b, slope),
{
    lemma_sqrt_floor_monotone(d2a as nat, d2b as nat);
    lemma_mul_inequality(sqrt_floor(d2a as nat) as int, sqrt_floor(d2b as nat) as int, slope);
}

/// Law: at a fixed axial offset, moving the point transversally away from
/// a cone that it is on or outside of strictly increases the value
/// whenever the floor transverse distance itself grows (with a positive
/// slope); between squared distances with the same floor root the value
/// is unchanged.
pub proof fn lemma_cone_strictly_monotone_away(axial: int, d2a: int, d2b: int, slope: int)
    requires
        0 <= d2a <= d2b,
        slope >= 1,
        abs_val(axial) <= sqrt_floor(d2a as nat) * slope,
        sqrt_floor(d2a as nat) < sqrt_floor(d2b as nat),
    ensures
        cone_value(axial, d2a, slope) < cone_value(axial, d2b, slope),
{
    lemma_mul_strict_inequality(
        sqrt_floor(d2a as nat) as int,
        sqrt_floor(d2b as nat) as int,
        slope,
    );
}

/// Law: at a fixed axial offset, moving the point transversally inward
/// from a cone that it is on or inside of never decreases the value.
pub proof fn lemma_cone_monotone_inward(axial: int, d2a: int, d2b: int, slope: int)
    requires
        0 <= d2a <= d2b,
        slope >= 0,
        sqrt_floor(d2b as nat) * slope <= abs_val(axial),
    ensures
        cone_value(axial, d2b, slope) <= cone_value(axial, d2a, slope),
{
    lemma_sqrt_floor_monotone(d2a as nat, d2b as nat);
    lemma_mul_inequality(sqrt_floor(d2a as nat) as int, sqrt_floor(d2b as nat) as int, slope);
}

} // verus!
