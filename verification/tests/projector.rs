use meshproj::fixed::{Fixed, SCALE};
use meshproj::geometry::{Triangle, Vector3};
use meshproj::mesh::parse_mesh;
use meshproj::project::{project, project_vertex, shade_channel, Projection};

fn v3(x: i64, y: i64, z: i64) -> Vector3 {
    Vector3::from_units(x, y, z)
}

fn setup(distance: i64, light: Vector3, size_multiplier: i64) -> Projection {
    Projection { distance: Fixed { units: distance }, light, size_multiplier: Fixed { units: size_multiplier } }
}

#[test]
fn unit_distance_projects_plane_points_unchanged() {
    // At distance one, a vertex on the z = 0 plane maps to (x * multiplier, y).
    let p = setup(SCALE, v3(0, SCALE, 0), SCALE);
    let r = project_vertex(&v3(2 * SCALE, 3 * SCALE, 0), &p);
    assert_eq!(r.x.units, 2 * SCALE);
    assert_eq!(r.y.units, 3 * SCALE);
}

#[test]
fn size_multiplier_scales_x_only() {
    let p = setup(SCALE, v3(0, SCALE, 0), 2 * SCALE);
    let r = project_vertex(&v3(2 * SCALE, 3 * SCALE, 0), &p);
    assert_eq!(r.x.units, 4 * SCALE);
    assert_eq!(r.y.units, 3 * SCALE);
}

#[test]
fn depth_scales_both_axes() {
    // distance 1, z = 1: ratio (1 + 1) / 1 = 2.
    let p = setup(SCALE, v3(0, SCALE, 0), SCALE);
    let r = project_vertex(&v3(SCALE, 3 * SCALE, SCALE), &p);
    assert_eq!(r.x.units, 2 * SCALE);
    assert_eq!(r.y.units, 6 * SCALE);
}

#[test]
fn facing_light_is_white_and_opposing_is_black() {
    let light = v3(0, SCALE, 0);
    assert_eq!(shade_channel(&v3(0, SCALE, 0), &light), 255);
    // A negative dot product clamps to zero; it never wraps.
    assert_eq!(shade_channel(&v3(0, -SCALE, 0), &light), 0);
}

#[test]
fn half_intensity_truncates() {
    let light = v3(0, SCALE, 0);
    assert_eq!(shade_channel(&v3(0, SCALE / 2, 0), &light), 127);
}

#[test]
fn overlong_normals_clamp_to_white() {
    let light = v3(0, 2 * SCALE, 0);
    assert_eq!(shade_channel(&v3(0, 2 * SCALE, 0), &light), 255);
}

#[test]
fn triangles_shade_as_grayscale() {
    let p = setup(SCALE, v3(0, SCALE, 0), SCALE);
    let t = Triangle { a: v3(0, 0, 0), b: v3(SCALE, 0, 0), c: v3(0, SCALE, 0), n: v3(0, SCALE, 0) };
    let out = project(&vec![t], &p);
    assert_eq!(out.len(), 1);
    assert_eq!(out[0].col.r, 255);
    assert_eq!(out[0].col.g, 255);
    assert_eq!(out[0].col.b, 255);
    assert_eq!(out[0].a.x.units, 0);
    assert_eq!(out[0].b.x.units, SCALE);
    assert_eq!(out[0].c.y.units, SCALE);
}

#[test]
fn projection_is_deterministic() {
    let text = b"v 0 0 0\nv 1 0 0\nv 1 1 1\nv 0 1 0\nvn 0 1 0\nvn 1 0 0\nf 1 2 3 4\nf 2 3 4\n";
    let ts = parse_mesh(text).unwrap();
    let p = setup(2 * SCALE, v3(0, SCALE, 0), 3 * SCALE / 2);
    let first = project(&ts, &p);
    let second = project(&ts, &p);
    assert_eq!(first, second);
}

#[test]
fn output_order_follows_input_order() {
    let p = setup(SCALE, v3(0, SCALE, 0), SCALE);
    let t1 = Triangle { a: v3(SCALE, 0, 0), b: v3(0, 0, 0), c: v3(0, 0, 0), n: v3(0, SCALE, 0) };
    let t2 = Triangle { a: v3(2 * SCALE, 0, 0), b: v3(0, 0, 0), c: v3(0, 0, 0), n: v3(0, 0, SCALE) };
    let out = project(&vec![t1, t2], &p);
    assert_eq!(out.len(), 2);
    assert_eq!(out[0].a.x.units, SCALE);
    assert_eq!(out[1].a.x.units, 2 * SCALE);
}

#[test]
fn closer_camera_magnifies() {
    // Halving the camera distance doubles the off-plane magnification:
    // at distance 1/2 and depth 1, the ratio is (1 + 1/2) / (1/2) = 3.
    let p = setup(SCALE / 2, v3(0, SCALE, 0), SCALE);
    let r = project_vertex(&v3(SCALE, SCALE, SCALE), &p);
    assert_eq!(r.x.units, 3 * SCALE);
    assert_eq!(r.y.units, 3 * SCALE);
}
