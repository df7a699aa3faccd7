use csg_surface_distance::arith::isqrt;
use csg_surface_distance::surface::{CSGSurface, Point, Vector};

fn any_direction() -> Vector {
    Vector { dx: 1, dy: 1, dz: 1 }
}

#[test]
fn isqrt_exact_values() {
    assert_eq!(isqrt(0), 0);
    assert_eq!(isqrt(1), 1);
    assert_eq!(isqrt(3), 1);
    assert_eq!(isqrt(4), 2);
    assert_eq!(isqrt(99), 9);
    assert_eq!(isqrt(100), 10);
    assert_eq!(
        isqrt(21_267_647_932_558_653_966_460_912_964_485_513_215),
        4_611_686_018_427_387_903
    );
}

#[test]
fn sphere_on_surface_is_zero() {
    let surface = CSGSurface::Sphere { x: 0, y: 0, z: 0, radius: 5 };
    let point = Point { x: 3, y: 4, z: 0 };
    assert_eq!(surface.distance_to_surface(&point, &any_direction()), Some(0));
}

#[test]
fn sphere_exact_distance() {
    let surface = CSGSurface::Sphere { x: 1, y: 1, z: 1, radius: 1 };
    let point = Point { x: 4, y: 5, z: 1 };
    assert_eq!(surface.distance_to_surface(&point, &any_direction()), Some(4));
}

#[test]
fn sphere_floor_root_between_lattice_radii() {
    let surface = CSGSurface::Sphere { x: 1, y: 1, z: 1, radius: 1 };
    let point = Point { x: 2, y: 2, z: 2 };
    assert_eq!(surface.distance_to_surface(&point, &any_direction()), Some(0));
}

#[test]
fn sphere_negative_radius_uses_magnitude() {
    let surface = CSGSurface::Sphere { x: 0, y: 0, z: 0, radius: -2 };
    let point = Point { x: 3, y: 4, z: 0 };
    assert_eq!(surface.distance_to_surface(&point, &any_direction()), Some(7));
}

#[test]
fn sphere_ignores_direction() {
    let surface = CSGSurface::Sphere { x: 1, y: 1, z: 1, radius: 1 };
    let point = Point { x: 4, y: 5, z: 1 };
    let v1 = Vector { dx: 1, dy: 0, dz: 0 };
    let v2 = Vector { dx: 0, dy: -7, dz: 2 };
    assert_eq!(
        surface.distance_to_surface(&point, &v1),
        surface.distance_to_surface(&point, &v2)
    );
}

#[test]
fn x_plane_hit() {
    let surface = CSGSurface::XPlane { x: 2 };
    let point = Point { x: 1, y: 1, z: 1 };
    let vector = Vector { dx: 1, dy: 0, dz: 0 };
    assert_eq!(surface.distance_to_surface(&point, &vector), Some(1));
}

#[test]
fn x_plane_parallel_ray_is_none() {
    let surface = CSGSurface::XPlane { x: 2 };
    let point = Point { x: 1, y: 1, z: 1 };
    let vector = Vector { dx: 0, dy: 1, dz: 0 };
    assert_eq!(surface.distance_to_surface(&point, &vector), None);
}

#[test]
fn x_plane_behind_ray_is_none() {
    let surface = CSGSurface::XPlane { x: -2 };
    let point = Point { x: 1, y: 1, z: 1 };
    let vector = Vector { dx: 1, dy: 0, dz: 0 };
    assert_eq!(surface.distance_to_surface(&point, &vector), None);
}

#[test]
fn x_plane_param_is_floored() {
    let surface = CSGSurface::XPlane { x: 8 };
    let point = Point { x: 1, y: 0, z: 0 };
    let vector = Vector { dx: 3, dy: 0, dz: 0 };
    assert_eq!(surface.distance_to_surface(&point, &vector), Some(2));
}

#[test]
fn x_plane_negative_direction_hit() {
    let surface = CSGSurface::XPlane { x: -5 };
    let point = Point { x: 1, y: 0, z: 0 };
    let vector = Vector { dx: -2, dy: 0, dz: 0 };
    assert_eq!(surface.distance_to_surface(&point, &vector), Some(3));
}

#[test]
fn y_plane_hit() {
    let surface = CSGSurface::YPlane { y: 2 };
    let point = Point { x: 1, y: 1, z: 1 };
    let vector = Vector { dx: 0, dy: 1, dz: 0 };
    assert_eq!(surface.distance_to_surface(&point, &vector), Some(1));
}

#[test]
fn y_plane_parallel_ray_is_none() {
    let surface = CSGSurface::YPlane { y: 2 };
    let point = Point { x: 1, y: 1, z: 1 };
    let vector = Vector { dx: 1, dy: 0, dz: 0 };
    assert_eq!(surface.distance_to_surface(&point, &vector), None);
}

#[test]
fn z_plane_hit() {
    let surface = CSGSurface::ZPlane { z: 2 };
    let point = Point { x: 1, y: 1, z: 1 };
    let vector = Vector { dx: 0, dy: 0, dz: 1 };
    assert_eq!(surface.distance_to_surface(&point, &vector), Some(1));
}

#[test]
fn z_plane_parallel_ray_is_none() {
    let surface = CSGSurface::ZPlane { z: 2 };
    let point = Point { x: 1, y: 1, z: 1 };
    let vector = Vector { dx: 1, dy: 0, dz: 0 };
    assert_eq!(surface.distance_to_surface(&point, &vector), None);
}

#[test]
fn plane_containing_point_is_zero() {
    let surface = CSGSurface::Plane { a: 1, b: 1, c: 1, d: -3 };
    let point = Point { x: 1, y: 1, z: 1 };
    assert_eq!(surface.distance_to_surface(&point, &any_direction()), Some(0));
}

#[test]
fn plane_exact_distance() {
    let surface = CSGSurface::Plane { a: 3, b: 4, c: 0, d: 0 };
    let point = Point { x: 5, y: 5, z: 0 };
    assert_eq!(surface.distance_to_surface(&point, &any_direction()), Some(7));
}

#[test]
fn plane_scaling_keeps_distance() {
    let plane = CSGSurface::Plane { a: 3, b: 4, c: 0, d: 10 };
    let scaled = CSGSurface::Plane { a: 6, b: 8, c: 0, d: 20 };
    let point = Point { x: 1, y: 1, z: 0 };
    let d1 = plane.distance_to_surface(&point, &any_direction());
    let d2 = scaled.distance_to_surface(&point, &any_direction());
    assert_eq!(d1, Some(3));
    assert_eq!(d1, d2);
}

#[test]
fn plane_scaling_invariant_for_irrational_norm() {
    let plane = CSGSurface::Plane { a: 1, b: 1, c: 0, d: 0 };
    let scaled = CSGSurface::Plane { a: 3, b: 3, c: 0, d: 0 };
    let point = Point { x: 3, y: 0, z: 0 };
    let d1 = plane.distance_to_surface(&point, &any_direction());
    let d2 = scaled.distance_to_surface(&point, &any_direction());
    assert_eq!(d1, Some(2));
    assert_eq!(d1, d2);
}

#[test]
fn x_cylinder_exact_distance() {
    let surface = CSGSurface::XAxisCylinder { y: 0, z: 0, radius: 1 };
    let point = Point { x: 1, y: 2, z: 2 };
    assert_eq!(surface.distance_to_surface(&point, &any_direction()), Some(1));
}

#[test]
fn x_cylinder_on_surface_is_zero() {
    let surface = CSGSurface::XAxisCylinder { y: 0, z: 0, radius: 5 };
    let point = Point { x: 7, y: 3, z: 4 };
    assert_eq!(surface.distance_to_surface(&point, &any_direction()), Some(0));
}

#[test]
fn y_cylinder_exact_distance() {
    let surface = CSGSurface::YAxisCylinder { x: 0, z: 0, radius: 1 };
    let point = Point { x: 2, y: 1, z: 2 };
    assert_eq!(surface.distance_to_surface(&point, &any_direction()), Some(1));
}

#[test]
fn z_cylinder_exact_distance() {
    let surface = CSGSurface::ZAxisCylinder { x: 0, y: 0, radius: 1 };
    let point = Point { x: 2, y: 2, z: 1 };
    assert_eq!(surface.distance_to_surface(&point, &any_direction()), Some(1));
}

#[test]
fn x_cone_on_surface_is_zero() {
    let surface = CSGSurface::XAxisCone { x: 0, y: 0, z: 0, slope: 2 };
    let point = Point { x: 10, y: 3, z: 4 };
    assert_eq!(surface.distance_to_surface(&point, &any_direction()), Some(0));
}

#[test]
fn x_cone_exact_distance() {
    let surface = CSGSurface::XAxisCone { x: 0, y: 0, z: 0, slope: 1 };
    let point = Point { x: 1, y: 2, z: 2 };
    assert_eq!(surface.distance_to_surface(&point, &any_direction()), Some(1));
}

#[test]
fn y_cone_exact_distance() {
    let surface = CSGSurface::YAxisCone { x: 0, y: 0, z: 0, slope: 1 };
    let point = Point { x: 2, y: 1, z: 2 };
    assert_eq!(surface.distance_to_surface(&point, &any_direction()), Some(1));
}

#[test]
fn z_cone_exact_distance() {
    let surface = CSGSurface::ZAxisCone { x: 0, y: 0, z: 0, slope: 1 };
    let point = Point { x: 2, y: 2, z: 1 };
    assert_eq!(surface.distance_to_surface(&point, &any_direction()), Some(1));
}

#[test]
fn cone_value_grows_moving_transversally_away() {
    let surface = CSGSurface::XAxisCone { x: 0, y: 0, z: 0, slope: 1 };
    let near = Point { x: 1, y: 2, z: 2 };
    let far = Point { x: 1, y: 3, z: 4 };
    assert_eq!(surface.distance_to_surface(&near, &any_direction()), Some(1));
    assert_eq!(surface.distance_to_surface(&far, &any_direction()), Some(4));
}

#[test]
fn cone_same_floor_distance_same_value() {
    let surface = CSGSurface::XAxisCone { x: 0, y: 0, z: 0, slope: 1 };
    let p1 = Point { x: 0, y: 1, z: 0 };
    let p2 = Point { x: 0, y: 1, z: 1 };
    assert_eq!(surface.distance_to_surface(&p1, &any_direction()), Some(1));
    assert_eq!(surface.distance_to_surface(&p2, &any_direction()), Some(1));
}

#[test]
fn quadric_zero_on_level_set() {
    let surface = CSGSurface::Quadric {
        a: 1,
        b: 1,
        c: 1,
        d: 0,
        e: 0,
        f: 0,
        g: 0,
        h: 0,
        j: 0,
        k: -3,
    };
    let point = Point { x: 1, y: 1, z: 1 };
    assert_eq!(surface.distance_to_surface(&point, &any_direction()), Some(0));
}

#[test]
fn quadric_polynomial_magnitude() {
    let surface = CSGSurface::Quadric {
        a: 1,
        b: 0,
        c: 0,
        d: 0,
        e: 0,
        f: 0,
        g: 0,
        h: 0,
        j: 0,
        k: -4,
    };
    let point = Point { x: 3, y: 0, z: 0 };
    assert_eq!(surface.distance_to_surface(&point, &any_direction()), Some(5));
}

#[test]
fn quadric_cross_and_linear_terms() {
    let surface = CSGSurface::Quadric {
        a: 0,
        b: 0,
        c: 0,
        d: 2,
        e: 0,
        f: 0,
        g: 1,
        h: 0,
        j: 0,
        k: 0,
    };
    let point = Point { x: 2, y: 3, z: 0 };
    assert_eq!(surface.distance_to_surface(&point, &any_direction()), Some(14));
}

#[test]
fn torus_on_surface_is_zero() {
    let surface = CSGSurface::XAxisTorus { x0: 0, y0: 0, z0: 0, a: 3, b: 1, c: 2 };
    let point = Point { x: 0, y: 5, z: 0 };
    assert_eq!(surface.distance_to_surface(&point, &any_direction()), Some(0));
}

#[test]
fn torus_exact_distance() {
    let surface = CSGSurface::XAxisTorus { x0: 0, y0: 0, z0: 0, a: 1, b: 1, c: 1 };
    let point = Point { x: 2, y: 2, z: 2 };
    assert_eq!(surface.distance_to_surface(&point, &any_direction()), Some(1));
}

#[test]
fn torus_b_parameter_is_not_read() {
    let one = CSGSurface::XAxisTorus { x0: 0, y0: 0, z0: 0, a: 3, b: 1, c: 2 };
    let other = CSGSurface::XAxisTorus { x0: 0, y0: 0, z0: 0, a: 3, b: 900, c: 2 };
    let point = Point { x: 4, y: 7, z: -2 };
    assert_eq!(
        one.distance_to_surface(&point, &any_direction()),
        other.distance_to_surface(&point, &any_direction())
    );
}

#[test]
fn test_distance_to_x_plane() {
    let point = Point { x: 1, y: 1, z: 1 };
    let vector = Vector { dx: 1, dy: 0, dz: 0 };
    let surface = CSGSurface::XPlane { x: 2 };
    assert_eq!(surface.distance_to_surface(&point, &vector), Some(1));
}

#[test]
fn test_no_intersection_with_x_plane() {
    let point = Point { x: 1, y: 1, z: 1 };
    let vector = Vector { dx: 0, dy: 1, dz: 0 };
    let surface = CSGSurface::XPlane { x: 2 };
    assert_eq!(surface.distance_to_surface(&point, &vector), None);
}

#[test]
fn test_distance_to_y_plane() {
    let point = Point { x: 1, y: 1, z: 1 };
    let vector = Vector { dx: 0, dy: 1, dz: 0 };
    let surface = CSGSurface::YPlane { y: 2 };
    assert_eq!(surface.distance_to_surface(&point, &vector), Some(1));
}

#[test]
fn test_no_intersection_with_y_plane() {
    let point = Point { x: 1, y: 1, z: 1 };
    let vector = Vector { dx: 1, dy: 0, dz: 0 };
    let surface = CSGSurface::YPlane { y: 2 };
    assert_eq!(surface.distance_to_surface(&point, &vector), None);
}

#[test]
fn test_distance_to_z_plane() {
    let point = Point { x: 1, y: 1, z: 1 };
    let vector = Vector { dx: 0, dy: 0, dz: 1 };
    let surface = CSGSurface::ZPlane { z: 2 };
    assert_eq!(surface.distance_to_surface(&point, &vector), Some(1));
}

#[test]
fn test_no_intersection_with_z_plane() {
    let point = Point { x: 1, y: 1, z: 1 };
    let vector = Vector { dx: 1, dy: 0, dz: 0 };
    let surface = CSGSurface::ZPlane { z: 2 };
    assert_eq!(surface.distance_to_surface(&point, &vector), None);
}

#[test]
fn test_distance_to_plane() {
    let point = Point { x: 1, y: 1, z: 1 };
    let vector = Vector { dx: 1, dy: 1, dz: 1 };
    let surface = CSGSurface::Plane { a: 1, b: 1, c: 1, d: -3 };
    assert_eq!(surface.distance_to_surface(&point, &vector), Some(0));
}

#[test]
fn test_distance_to_quadric() {
    let point = Point { x: 1, y: 1, z: 1 };
    let vector = Vector { dx: 1, dy: 1, dz: 1 };
    let surface = CSGSurface::Quadric {
        a: 1,
        b: 1,
        c: 1,
        d: 0,
        e: 0,
        f: 0,
        g: 0,
        h: 0,
        j: 0,
        k: -3,
    };
    assert_eq!(surface.distance_to_surface(&point, &vector), Some(0));
}

#[test]
fn x_cylinder_off_axis_center() {
    let surface = CSGSurface::XAxisCylinder { y: 1, z: 1, radius: 5 };
    let point = Point { x: 9, y: 4, z: 5 };
    assert_eq!(surface.distance_to_surface(&point, &any_direction()), Some(0));
}

#[test]
fn evaluate_twice_gives_identical_output() {
    let surface = CSGSurface::Sphere { x: 9, y: -4, z: 2, radius: 11 };
    let point = Point { x: -5, y: 6, z: 300 };
    let vector = Vector { dx: 2, dy: -3, dz: 4 };
    let first = surface.distance_to_surface(&point, &vector);
    let second = surface.distance_to_surface(&point, &vector);
    assert_eq!(first, second);
}
