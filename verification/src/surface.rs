//! The surface catalog: a closed set of implicit-surface primitives over
//! bounded integer coordinates, and one evaluation operation that returns an
//! exact, non-negative proximity value for a sample point — or no value when
//! an axis-aligned plane query is geometrically degenerate.

use vstd::prelude::*;
use crate::arith::{abs_val, isqrt, lemma_sqrt_floor_upper, sq, sqrt_floor};

verus! {

/// Largest magnitude allowed for any coordinate or surface parameter; keeps
/// every intermediate product of the evaluation formulas inside `i128`.
pub const COORD_BOUND: i64 = 1_000_000_000;

/// A scalar that a point, direction, or surface parameter may hold.
pub open spec fn in_range(v: int) -> bool {
    -(COORD_BOUND as int) <= v <= COORD_BOUND as int
}

/// A 3D position.
#[derive(Clone, Copy, PartialEq, Eq, Structural)]
pub struct Point {
    pub x: i64,
    pub y: i64,
    pub z: i64,
}

impl Point {
    /// All coordinates are within the working range.
    pub open spec fn wf(self) -> bool {
        in_range(self.x as int) && in_range(self.y as int) && in_range(self.z as int)
    }
}

/// A 3D direction; read only by the axis-aligned plane variants, where the
/// returned scalar is a ray parameter along it.
#[derive(Clone, Copy, PartialEq, Eq, Structural)]
pub struct Vector {
    pub dx: i64,
    pub dy: i64,
    pub dz: i64,
}

impl Vector {
    /// All components are within the working range.
    pub open spec fn wf(self) -> bool {
        in_range(self.dx as int) && in_range(self.dy as int) && in_range(self.dz as int)
    }
}

/// The closed catalog of implicit surfaces. Radii and slopes may legally be
/// zero or negative; the evaluator takes an absolute value as its final step.
#[derive(Clone, Copy, PartialEq, Eq, Structural)]
pub enum CSGSurface {
    /// Sphere with center `(x, y, z)` and the given radius.
    Sphere { x: i64, y: i64, z: i64, radius: i64 },
    /// Plane perpendicular to the x-axis at offset `x`.
    XPlane { x: i64 },
    /// Plane perpendicular to the y-axis at offset `y`.
    YPlane { y: i64 },
    /// Plane perpendicular to the z-axis at offset `z`.
    ZPlane { z: i64 },
    /// General plane `a*x + b*y + c*z + d == 0`; `(a, b, c)` must not be the
    /// zero vector.
    Plane { a: i64, b: i64, c: i64, d: i64 },
    /// Infinite cylinder with the given radius, axis parallel to the x-axis
    /// through the transverse center `(y, z)`; `(0, 0)` gives the x-axis
    /// itself.
    XAxisCylinder { y: i64, z: i64, radius: i64 },
    /// As `XAxisCylinder`, axis parallel to the y-axis through `(x, z)`.
    YAxisCylinder { x: i64, z: i64, radius: i64 },
    /// As `XAxisCylinder`, axis parallel to the z-axis through `(x, y)`.
    ZAxisCylinder { x: i64, y: i64, radius: i64 },
    /// Infinite double cone with apex `(x, y, z)`, axis parallel to the
    /// x-axis, and the given slope (tangent of the half-angle).
    XAxisCone { x: i64, y: i64, z: i64, slope: i64 },
    /// As `XAxisCone`, with the axis parallel to the y-axis.
    YAxisCone { x: i64, y: i64, z: i64, slope: i64 },
    /// As `XAxisCone`, with the axis parallel to the z-axis.
    ZAxisCone { x: i64, y: i64, z: i64, slope: i64 },
    /// General second-degree surface
    /// `a*x^2 + b*y^2 + c*z^2 + d*xy + e*yz + f*xz + g*x + h*y + j*z + k == 0`.
    /// The value returned for it is the magnitude of the polynomial, an
    /// algebraic level-set value rather than a calibrated metric distance.
    Quadric {
        a: i64,
        b: i64,
        c: i64,
        d: i64,
        e: i64,
        f: i64,
        g: i64,
        h: i64,
        j: i64,
        k: i64,
    },
    /// Torus with revolution axis parallel to the x-axis through
    /// `(x0, y0, z0)`, center-circle radius `a`, and tube radius `c`;
    /// `b` is accepted as a parameter but not read by the formula.
    XAxisTorus { x0: i64, y0: i64, z0: i64, a: i64, b: i64, c: i64 },
}

/// `|sqrt_floor(d2) - radius|`: how far a point whose squared distance from
/// a center (or axis) is `d2` stands from the shell of the given radius.
pub open spec fn ring_gap(d2: int, radius: int) -> int
    recommends
        d2 >= 0,
{
    abs_val(sqrt_floor(d2 as nat) - radius)
}

/// The ray parameter at which a ray from `coord` with component `delta`
/// meets an axis-aligned plane at `offset`: no value when the ray is
/// parallel (`delta == 0`) or the plane lies behind the origin (the exact
/// parameter would be negative); otherwise the floor of the parameter.
pub open spec fn ray_param(offset: int, coord: int, delta: int) -> Option<int> {
    if delta == 0 {
        None
    } else if (offset - coord) * delta < 0 {
        None
    } else {
        Some(abs_val(offset - coord) / abs_val(delta))
    }
}

/// Distance from a point to the general plane `a*x + b*y + c*z + d == 0`:
/// the floor of the exact quotient `|a*x + b*y + c*z + d| / sqrt(a^2 + b^2
/// + c^2)`, that is, the largest `t >= 0` with `t^2 * (a^2 + b^2 + c^2)`
/// at most the square of the plane form at the point. Flooring the exact
/// quotient (rather than its numerator or denominator separately) keeps
/// the value invariant under scaling all four parameters by any nonzero
/// factor.
pub open spec fn plane_value(a: int, b: int, c: int, d: int, p: Point) -> int
    recommends
        !(a == 0 && b == 0 && c == 0),
{
    let num: int = a * p.x + b * p.y + c * p.z + d;
    let n2: int = sq(a) + sq(b) + sq(c);
    sqrt_floor(((num * num) / n2) as nat) as int
}

/// Cone value for a point at axial offset `axial` from the apex and squared
/// transverse distance `d2`: the gap between the axial magnitude and the
/// surface height `sqrt_floor(d2) * slope`.
pub open spec fn cone_value(axial: int, d2: int, slope: int) -> int
    recommends
        d2 >= 0,
{
    abs_val(abs_val(axial) - sqrt_floor(d2 as nat) * slope)
}

/// Magnitude of the general quadric polynomial at a point.
pub open spec fn quadric_value(
    a: int,
    b: int,
    c: int,
    d: int,
    e: int,
    f: int,
    g: int,
    h: int,
    j: int,
    k: int,
    p: Point,
) -> int {
    abs_val(
        a * sq(p.x as int) + b * sq(p.y as int) + c * sq(p.z as int) + d * (p.x * p.y) + e * (p.y
            * p.z) + f * (p.x * p.z) + g * p.x + h * p.y + j * p.z + k,
    )
}

/// Torus value: distance in the transverse plane to the center circle of
/// radius `a`, combined with the axial offset, against the tube radius `c`.
pub open spec fn torus_value(x0: int, y0: int, z0: int, a: int, c: int, p: Point) -> int {
    let ring: int = abs_val(sqrt_floor((sq(p.y - y0) + sq(p.z - z0)) as nat) - a);
    ring_gap(sq(ring) + sq(p.x - x0), c)
}

/// The mathematical value of the evaluation operation, variant by variant.
pub open spec fn spec_evaluate(s: CSGSurface, p: Point, v: Vector) -> Option<int> {
    match s {
        CSGSurface::Sphere { x, y, z, radius } => Some(
            ring_gap(sq(p.x - x) + sq(p.y - y) + sq(p.z - z), radius as int),
        ),
        CSGSurface::XPlane { x } => ray_param(x as int, p.x as int, v.dx as int),
        CSGSurface::YPlane { y } => ray_param(y as int, p.y as int, v.dy as int),
        CSGSurface::ZPlane { z } => ray_param(z as int, p.z as int, v.dz as int),
        CSGSurface::Plane { a, b, c, d } => Some(
            plane_value(a as int, b as int, c as int, d as int, p),
        ),
        CSGSurface::XAxisCylinder { y, z, radius } => Some(
            ring_gap(sq(p.y - y) + sq(p.z - z), radius as int),
        ),
        CSGSurface::YAxisCylinder { x, z, radius } => Some(
            ring_gap(sq(p.x - x) + sq(p.z - z), radius as int),
        ),
        CSGSurface::ZAxisCylinder { x, y, radius } => Some(
            ring_gap(sq(p.x - x) + sq(p.y - y), radius as int),
        ),
        CSGSurface::XAxisCone { x, y, z, slope } => Some(
            cone_value(p.x - x, sq(p.y - y) + sq(p.z - z), slope as int),
        ),
        CSGSurface::YAxisCone { x, y, z, slope } => Some(
            cone_value(p.y - y, sq(p.x - x) + sq(p.z - z), slope as int),
        ),
        CSGSurface::ZAxisCone { x, y, z, slope } => Some(
            cone_value(p.z - z, sq(p.x - x) + sq(p.y - y), slope as int),
        ),
        CSGSurface::Quadric { a, b, c, d, e, f, g, h, j, k } => Some(
            quadric_value(
                a as int,
                b as int,
                c as int,
                d as int,
                e as int,
                f as int,
                g as int,
                h as int,
                j as int,
                k as int,
                p,
            ),
        ),
        CSGSurface::XAxisTorus { x0, y0, z0, a, b, c } => Some(
            torus_value(x0 as int, y0 as int, z0 as int, a as int, c as int, p),
        ),
    }
}

impl CSGSurface {
    /// All parameters are within the working range, and a general plane's
    /// normal is not the zero vector.
    pub open spec fn wf(self) -> bool {
        match self {
            CSGSurface::Sphere { x, y, z, radius } => in_range(x as int) && in_range(y as int)
                && in_range(z as int) && in_range(radius as int),
            CSGSurface::XPlane { x } => in_range(x as int),
            CSGSurface::YPlane { y } => in_range(y as int),
            CSGSurface::ZPlane { z } => in_range(z as int),
            CSGSurface::Plane { a, b, c, d } => in_range(a as int) && in_range(b as int)
                && in_range(c as int) && in_range(d as int) && !(a == 0 && b == 0 && c == 0),
            CSGSurface::XAxisCylinder { y, z, radius } => in_range(y as int) && in_range(z as int)
                && in_range(radius as int),
            CSGSurface::YAxisCylinder { x, z, radius } => in_range(x as int) && in_range(z as int)
                && in_range(radius as int),
            CSGSurface::ZAxisCylinder { x, y, radius } => in_range(x as int) && in_range(y as int)
                && in_range(radius as int),
            CSGSurface::XAxisCone { x, y, z, slope } => in_range(x as int) && in_range(y as int)
                && in_range(z as int) && in_range(slope as int),
            CSGSurface::YAxisCone { x, y, z, slope } => in_range(x as int) && in_range(y as int)
                && in_range(z as int) && in_range(slope as int),
            CSGSurface::ZAxisCone { x, y, z, slope } => in_range(x as int) && in_range(y as int)
                && in_range(z as int) && in_range(slope as int),
            CSGSurface::Quadric { a, b, c, d, e, f, g, h, j, k } => in_range(a as int) && in_range(
                b as int,
            ) && in_range(c as int) && in_range(d as int) && in_range(e as int) && in_range(f as int)
                && in_range(g as int) && in_range(h as int) && in_range(j as int) && in_range(
                k as int,
            ),
            CSGSurface::XAxisTorus { x0, y0, z0, a, b, c } => in_range(x0 as int) && in_range(
                y0 as int,
            ) && in_range(z0 as int) && in_range(a as int) && in_range(b as int) && in_range(
                c as int,
            ),
        }
    }

    /// Evaluates the proximity value of `point` (with `vector` as the ray
    /// direction for the axis-aligned plane variants) against this surface.
    /// The result is exactly `spec_evaluate`, and any present value is
    /// non-negative.
    pub fn distance_to_surface(&self, point: &Point, vector: &Vector) -> (result: Option<i128>)
        requires
            self.wf(),
            point.wf(),
            vector.wf(),
        ensures
            opt_val(result) == spec_evaluate(*self, *point, *vector),
            result matches Some(d) ==> d >= 0,
    {
        match self {
            CSGSurface::Sphere { x, y, z, radius } => {
                let dx: i128 = (point.x as i128) - (*x as i128);
                let dy: i128 = (point.y as i128) - (*y as i128);
                let dz: i128 = (point.z as i128) - (*z as i128);
                proof {
                    lemma_sq_bound(dx as int, 2_000_000_000int);
                    lemma_sq_bound(dy as int, 2_000_000_000int);
                    lemma_sq_bound(dz as int, 2_000_000_000int);
                }
                let d2: i128 = dx * dx + dy * dy + dz * dz;
                Some(ring_dist(d2, *radius))
            },
            CSGSurface::XPlane { x } => axis_ray(*x, point.x, vector.dx),
            CSGSurface::YPlane { y } => axis_ray(*y, point.y, vector.dy),
            CSGSurface::ZPlane { z } => axis_ray(*z, point.z, vector.dz),
            CSGSurface::Plane { a, b, c, d } => Some(plane_dist(*a, *b, *c, *d, point)),
            CSGSurface::XAxisCylinder { y, z, radius } => {
                let dy: i128 = (point.y as i128) - (*y as i128);
                let dz: i128 = (point.z as i128) - (*z as i128);
                proof {
                    lemma_sq_bound(dy as int, 2_000_000_000int);
                    lemma_sq_bound(dz as int, 2_000_000_000int);
                }
                let d2: i128 = dy * dy + dz * dz;
                Some(ring_dist(d2, *radius))
            },
            CSGSurface::YAxisCylinder { x, z, radius } => {
                let dx: i128 = (point.x as i128) - (*x as i128);
                let dz: i128 = (point.z as i128) - (*z as i128);
                proof {
                    lemma_sq_bound(dx as int, 2_000_000_000int);
                    lemma_sq_bound(dz as int, 2_000_000_000int);
                }
                let d2: i128 = dx * dx + dz * dz;
                Some(ring_dist(d2, *radius))
            },
            CSGSurface::ZAxisCylinder { x, y, radius } => {
                let dx: i128 = (point.x as i128) - (*x as i128);
                let dy: i128 = (point.y as i128) - (*y as i128);
                proof {
                    lemma_sq_bound(dx as int, 2_000_000_000int);
                    lemma_sq_bound(dy as int, 2_000_000_000int);
                }
                let d2: i128 = dx * dx + dy * dy;
                Some(ring_dist(d2, *radius))
            },
            CSGSurface::XAxisCone { x, y, z, slope } => {
                let dy: i128 = (point.y as i128) - (*y as i128);
                let dz: i128 = (point.z as i128) - (*z as i128);
                proof {
                    lemma_sq_bound(dy as int, 2_000_000_000int);
                    lemma_sq_bound(dz as int, 2_000_000_000int);
                }
                let d2: i128 = dy * dy + dz * dz;
                let axial: i128 = (point.x as i128) - (*x as i128);
                Some(cone_dist(axial, d2, *slope))
            },
            CSGSurface::YAxisCone { x, y, z, slope } => {
                let dx: i128 = (point.x as i128) - (*x as i128);
                let dz: i128 = (point.z as i128) - (*z as i128);
                proof {
                    lemma_sq_bound(dx as int, 2_000_000_000int);
                    lemma_sq_bound(dz as int, 2_000_000_000int);
                }
                let d2: i128 = dx * dx + dz * dz;
                let axial: i128 = (point.y as i128) - (*y as i128);
                Some(cone_dist(axial, d2, *slope))
            },
            CSGSurface::ZAxisCone { x, y, z, slope } => {
                let dx: i128 = (point.x as i128) - (*x as i128);
                let dy: i128 = (point.y as i128) - (*y as i128);
                proof {
                    lemma_sq_bound(dx as int, 2_000_000_000int);
                    lemma_sq_bound(dy as int, 2_000_000_000int);
                }
                let d2: i128 = dx * dx + dy * dy;
                let axial: i128 = (point.z as i128) - (*z as i128);
                Some(cone_dist(axial, d2, *slope))
            },
            CSGSurface::Quadric { a, b, c, d, e, f, g, h, j, k } => Some(
                quadric_dist(*a, *b, *c, *d, *e, *f, *g, *h, *j, *k, point),
            ),
            CSGSurface::XAxisTorus { x0, y0, z0, a, b, c } => Some(
                torus_dist(*x0, *y0, *z0, *a, *c, point),
            ),
        }
    }
}

/// The payload of an evaluation result, widened to `int`.
pub open spec fn opt_val(o: Option<i128>) -> Option<int> {
    match o {
        Some(d) => Some(d as int),
        None => None,
    }
}

proof fn lemma_sq_bound(v: int, b: int)
    by (nonlinear_arith)
    requires
        -b <= v <= b,
        0 <= b,
    ensures
        0 <= v * v <= b * b,
{
}

proof fn lemma_mul_bound(v: int, w: int, bv: int, bw: int)
    by (nonlinear_arith)
    requires
        -bv <= v <= bv,
        -bw <= w <= bw,
        0 <= bv,
        0 <= bw,
    ensures
        -(bv * bw) <= v * w <= bv * bw,
{
}

/// `|sqrt_floor(d2) - radius|` over machine integers.
fn ring_dist(d2: i128, radius: i64) -> (r: i128)
    requires
        0 <= d2 <= 20_000_000_000_000_000_000,
        in_range(radius as int),
    ensures
        r == ring_gap(d2 as int, radius as int),
        r >= 0,
{
    let root: u64 = isqrt(d2 as u128);
    proof {
        lemma_sqrt_floor_upper(d2 as nat, 5_000_000_000nat);
        assert(5_000_000_000nat * 5_000_000_000nat == 25_000_000_000_000_000_000nat)
            by (nonlinear_arith);
    }
    let diff: i128 = (root as i128) - (radius as i128);
    if diff < 0 {
        -diff
    } else {
        diff
    }
}

/// Ray parameter against one axis-aligned plane, as `ray_param` specifies.
fn axis_ray(offset: i64, coord: i64, delta: i64) -> (r: Option<i128>)
    requires
        in_range(offset as int),
        in_range(coord as int),
        in_range(delta as int),
    ensures
        opt_val(r) == ray_param(offset as int, coord as int, delta as int),
        r matches Some(t) ==> t >= 0,
{
    if delta == 0 {
        return None;
    }
    let num: i64 = offset - coord;
    if num == 0 {
        proof {
            assert((offset as int - coord as int) * (delta as int) == 0) by (nonlinear_arith)
                requires
                    offset as int - coord as int == 0,
            ;
            vstd::arithmetic::div_mod::lemma_div_of0(abs_val(delta as int));
        }
        return Some(0);
    }
    let same_sign: bool = (num > 0) == (delta > 0);
    if !same_sign {
        proof {
            assert((num as int) * (delta as int) < 0) by (nonlinear_arith)
                requires
                    num != 0,
                    delta != 0,
                    (num > 0) != (delta > 0),
            ;
        }
        return None;
    }
    proof {
        assert((num as int) * (delta as int) > 0) by (nonlinear_arith)
            requires
                num != 0,
                delta != 0,
                (num > 0) == (delta > 0),
        ;
    }
    let na: u64 = if num < 0 {
        (-num) as u64
    } else {
        num as u64
    };
    let da: u64 = if delta < 0 {
        (-delta) as u64
    } else {
        delta as u64
    };
    let q: u64 = na / da;
    Some(q as i128)
}

/// General plane distance, as `plane_value` specifies.
fn plane_dist(a: i64, b: i64, c: i64, d: i64, point: &Point) -> (r: i128)
    requires
        in_range(a as int),
        in_range(b as int),
        in_range(c as int),
        in_range(d as int),
        point.wf(),
        !(a == 0 && b == 0 && c == 0),
    ensures
        r == plane_value(a as int, b as int, c as int, d as int, *point),
        r >= 0,
{
    proof {
        lemma_mul_bound(a as int, point.x as int, 1_000_000_000int, 1_000_000_000int);
        lemma_mul_bound(b as int, point.y as int, 1_000_000_000int, 1_000_000_000int);
        lemma_mul_bound(c as int, point.z as int, 1_000_000_000int, 1_000_000_000int);
        lemma_sq_bound(a as int, 1_000_000_000int);
        lemma_sq_bound(b as int, 1_000_000_000int);
        lemma_sq_bound(c as int, 1_000_000_000int);
    }
    let num: i128 = (a as i128) * (point.x as i128) + (b as i128) * (point.y as i128) + (c as i128)
        * (point.z as i128) + (d as i128);
    let s2: i128 = (a as i128) * (a as i128) + (b as i128) * (b as i128) + (c as i128) * (c as i128);
    proof {
        if a != 0 {
            assert((a as int) * (a as int) >= 1) by (nonlinear_arith)
                requires
                    a != 0,
            ;
        } else if b != 0 {
            assert((b as int) * (b as int) >= 1) by (nonlinear_arith)
                requires
                    b != 0,
            ;
        } else {
            assert((c as int) * (c as int) >= 1) by (nonlinear_arith)
                requires
                    c != 0,
            ;
        }
        lemma_sq_bound(num as int, 3_100_000_000_000_000_000int);
    }
    let n2: i128 = num * num;
    let q: u128 = (n2 as u128) / (s2 as u128);
    proof {
        vstd::arithmetic::div_mod::lemma_div_nonincreasing(n2 as int, s2 as int);
    }
    let root: u64 = isqrt(q);
    root as i128
}

/// Cone value, as `cone_value` specifies.
fn cone_dist(axial: i128, d2: i128, slope: i64) -> (r: i128)
    requires
        -3_000_000_000 <= axial <= 3_000_000_000,
        0 <= d2 <= 20_000_000_000_000_000_000,
        in_range(slope as int),
    ensures
        r == cone_value(axial as int, d2 as int, slope as int),
        r >= 0,
{
    let root: u64 = isqrt(d2 as u128);
    proof {
        lemma_sqrt_floor_upper(d2 as nat, 5_000_000_000nat);
        assert(5_000_000_000nat * 5_000_000_000nat == 25_000_000_000_000_000_000nat)
            by (nonlinear_arith);
        lemma_mul_bound(root as int, slope as int, 5_000_000_000int, 1_000_000_000int);
    }
    let t: i128 = (root as i128) * (slope as i128);
    let h: i128 = if axial < 0 {
        -axial
    } else {
        axial
    };
    let diff: i128 = h - t;
    if diff < 0 {
        -diff
    } else {
        diff
    }
}

/// Quadric polynomial magnitude, as `quadric_value` specifies.
fn quadric_dist(
    a: i64,
    b: i64,
    c: i64,
    d: i64,
    e: i64,
    f: i64,
    g: i64,
    h: i64,
    j: i64,
    k: i64,
    point: &Point,
) -> (r: i128)
    requires
        in_range(a as int),
        in_range(b as int),
        in_range(c as int),
        in_range(d as int),
        in_range(e as int),
        in_range(f as int),
        in_range(g as int),
        in_range(h as int),
        in_range(j as int),
        in_range(k as int),
        point.wf(),
    ensures
        r == quadric_value(
            a as int,
            b as int,
            c as int,
            d as int,
            e as int,
            f as int,
            g as int,
            h as int,
            j as int,
            k as int,
            *point,
        ),
        r >= 0,
{
    let px: i128 = point.x as i128;
    let py: i128 = point.y as i128;
    let pz: i128 = point.z as i128;
    proof {
        lemma_sq_bound(px as int, 1_000_000_000int);
        lemma_sq_bound(py as int, 1_000_000_000int);
        lemma_sq_bound(pz as int, 1_000_000_000int);
        lemma_mul_bound(px as int, py as int, 1_000_000_000int, 1_000_000_000int);
        lemma_mul_bound(py as int, pz as int, 1_000_000_000int, 1_000_000_000int);
        lemma_mul_bound(px as int, pz as int, 1_000_000_000int, 1_000_000_000int);
    }
    let px2: i128 = px * px;
    let py2: i128 = py * py;
    let pz2: i128 = pz * pz;
    let pxy: i128 = px * py;
    let pyz: i128 = py * pz;
    let pxz: i128 = px * pz;
    proof {
        lemma_mul_bound(a as int, px2 as int, 1_000_000_000int, 1_000_000_000_000_000_000int);
        lemma_mul_bound(b as int, py2 as int, 1_000_000_000int, 1_000_000_000_000_000_000int);
        lemma_mul_bound(c as int, pz2 as int, 1_000_000_000int, 1_000_000_000_000_000_000int);
        lemma_mul_bound(d as int, pxy as int, 1_000_000_000int, 1_000_000_000_000_000_000int);
        lemma_mul_bound(e as int, pyz as int, 1_000_000_000int, 1_000_000_000_000_000_000int);
        lemma_mul_bound(f as int, pxz as int, 1_000_000_000int, 1_000_000_000_000_000_000int);
        lemma_mul_bound(g as int, px as int, 1_000_000_000int, 1_000_000_000int);
        lemma_mul_bound(h as int, py as int, 1_000_000_000int, 1_000_000_000int);
        lemma_mul_bound(j as int, pz as int, 1_000_000_000int, 1_000_000_000int);
    }
    let value: i128 = (a as i128) * px2 + (b as i128) * py2 + (c as i128) * pz2 + (d as i128) * pxy
        + (e as i128) * pyz + (f as i128) * pxz + (g as i128) * px + (h as i128) * py + (j as i128)
        * pz + (k as i128);
    if value < 0 {
        -value
    } else {
        value
    }
}

/// Torus value, as `torus_value` specifies.
fn torus_dist(x0: i64, y0: i64, z0: i64, a: i64, c: i64, point: &Point) -> (r: i128)
    requires
        in_range(x0 as int),
        in_range(y0 as int),
        in_range(z0 as int),
        in_range(a as int),
        in_range(c as int),
        point.wf(),
    ensures
        r == torus_value(x0 as int, y0 as int, z0 as int, a as int, c as int, *point),
        r >= 0,
{
    let dx: i128 = (point.x as i128) - (x0 as i128);
    let dy: i128 = (point.y as i128) - (y0 as i128);
    let dz: i128 = (point.z as i128) - (z0 as i128);
    proof {
        lemma_sq_bound(dx as int, 2_000_000_000int);
        lemma_sq_bound(dy as int, 2_000_000_000int);
        lemma_sq_bound(dz as int, 2_000_000_000int);
    }
    let d2yz: i128 = dy * dy + dz * dz;
    let root1: u64 = isqrt(d2yz as u128);
    proof {
        lemma_sqrt_floor_upper(d2yz as nat, 3_000_000_000nat);
        assert(3_000_000_000nat * 3_000_000_000nat == 9_000_000_000_000_000_000nat)
            by (nonlinear_arith);
    }
    let ringd: i128 = (root1 as i128) - (a as i128);
    let ring: i128 = if ringd < 0 {
        -ringd
    } else {
        ringd
    };
    proof {
        lemma_sq_bound(ring as int, 4_000_000_000int);
        assert(4_000_000_000int * 4_000_000_000int == 16_000_000_000_000_000_000int)
            by (nonlinear_arith);
    }
    let r2: i128 = ring * ring + dx * dx;
    ring_dist(r2, c)
}

} // verus!
