//! The projector/shader stage: turns a list of 3D triangles into a list of
//! 2D triangles with screen-plane coordinates and a flat shading color.
//!
//! Each vertex goes through a pinhole-camera perspective divide: a point at
//! depth `z` is scaled by `(z + distance) / distance`, and the horizontal
//! axis is additionally scaled by a size multiplier. Each triangle gets a
//! grayscale intensity from the dot product of its normal with the light
//! direction, scaled by 255 and clamped into `[0, 255]`.

use vstd::prelude::*;
use crate::fixed::{Fixed, SCALE, fx_add, fx_mul, fx_div};
use crate::geometry::{Vector3, Vector2, Triangle, Triangle2D, Color};

verus! {

/// The projection configuration: the camera's distance from the viewing
/// plane, the fixed light direction, and the horizontal size multiplier.
#[derive(Clone, Copy, Debug, PartialEq, Eq, Structural)]
pub struct Projection {
    pub distance: Fixed,
    pub light: Vector3,
    pub size_multiplier: Fixed,
}

/// The pinhole depth ratio `(z + distance) / distance`, on unit counts.
pub open spec fn spec_ratio(z: int, d: int) -> int {
    fx_div(fx_add(z, d), d)
}

/// Screen X: `x * ((z + distance) / distance) * size_multiplier`.
pub open spec fn spec_screen_x(x: int, z: int, d: int, m: int) -> int {
    fx_mul(fx_mul(x, spec_ratio(z, d)), m)
}

/// Screen Y: `y * ((z + distance) / distance)`.
pub open spec fn spec_screen_y(y: int, z: int, d: int) -> int {
    fx_mul(y, spec_ratio(z, d))
}

/// Where one vertex lands on the viewing plane.
pub open spec fn spec_project_vertex(v: Vector3, p: Projection) -> Vector2 {
    Vector2 {
        x: Fixed {
            units: spec_screen_x(
                v.x.units as int,
                v.z.units as int,
                p.distance.units as int,
                p.size_multiplier.units as int,
            ) as i64,
        },
        y: Fixed {
            units: spec_screen_y(v.y.units as int, v.z.units as int, p.distance.units as int) as i64,
        },
    }
}

/// The dot product of a normal with the light direction, on unit counts.
pub open spec fn spec_dot(n: Vector3, l: Vector3) -> int {
    fx_add(
        fx_add(
            fx_mul(n.x.units as int, l.x.units as int),
            fx_mul(n.y.units as int, l.y.units as int),
        ),
        fx_mul(n.z.units as int, l.z.units as int),
    )
}

/// The 8-bit intensity for a dot product: scaled by 255, truncated, and
/// clamped into `[0, 255]` (a negative dot product never wraps).
pub open spec fn spec_channel(dot: int) -> int {
    if dot <= 0 {
        0
    } else if dot * 255 / (SCALE as int) > 255 {
        255
    } else {
        dot * 255 / (SCALE as int)
    }
}

/// The full projection of one triangle: three projected vertices and a
/// grayscale flat-shading color.
pub open spec fn spec_project_triangle(t: Triangle, p: Projection) -> Triangle2D {
    Triangle2D {
        a: spec_project_vertex(t.a, p),
        b: spec_project_vertex(t.b, p),
        c: spec_project_vertex(t.c, p),
        col: Color {
            r: spec_channel(spec_dot(t.n, p.light)) as u8,
            g: spec_channel(spec_dot(t.n, p.light)) as u8,
            b: spec_channel(spec_dot(t.n, p.light)) as u8,
        },
    }
}

/// The projection of a whole triangle list, in order.
pub open spec fn spec_project(ts: Seq<Triangle>, p: Projection) -> Seq<Triangle2D> {
    ts.map_values(|t: Triangle| spec_project_triangle(t, p))
}

/// Projects one vertex onto the viewing plane.
pub fn project_vertex(v: &Vector3, p: &Projection) -> (r: Vector2)
    requires
        p.distance.units != 0,
    ensures
        r == spec_project_vertex(*v, *p),
{
    let ratio = v.z.sat_add(p.distance).sat_div(p.distance);
    Vector2 { x: v.x.sat_mul(ratio).sat_mul(p.size_multiplier), y: v.y.sat_mul(ratio) }
}

/// Computes the grayscale shading channel for a normal under the light
/// direction: the dot product scaled by 255 and clamped into `[0, 255]`.
pub fn shade_channel(n: &Vector3, light: &Vector3) -> (r: u8)
    ensures
        r as int == spec_channel(spec_dot(*n, *light)),
{
    let dot = n.x.sat_mul(light.x).sat_add(n.y.sat_mul(light.y)).sat_add(n.z.sat_mul(light.z));
    if dot.units <= 0 {
        0
    } else {
        let v: u128 = (dot.units as u128) * 255u128 / (SCALE as u128);
        if v > 255 {
            255
        } else {
            v as u8
        }
    }
}

/// Projects and shades one triangle.
pub fn project_triangle(t: &Triangle, p: &Projection) -> (r: Triangle2D)
    requires
        p.distance.units != 0,
    ensures
        r == spec_project_triangle(*t, *p),
{
    let ch = shade_channel(&t.n, &p.light);
    Triangle2D {
        a: project_vertex(&t.a, p),
        b: project_vertex(&t.b, p),
        c: project_vertex(&t.c, p),
        col: Color { r: ch, g: ch, b: ch },
    }
}

/// Projects a whole triangle list. The output has one entry per input
/// triangle, in the same order; entry `i` is the projection of input `i`.
pub fn project(triangles: &Vec<Triangle>, p: &Projection) -> (r: Vec<Triangle2D>)
    requires
        p.distance.units != 0,
    ensures
        r@ == spec_project(triangles@, *p),
        r@.len() == triangles@.len(),
        forall|i: int|
            0 <= i < triangles@.len() ==> r@[i] == spec_project_triangle(triangles@[i], *p),
{
    let mut out: Vec<Triangle2D> = Vec::new();
    let mut i: usize = 0;
    while i < triangles.len()
        invariant
            i <= triangles@.len(),
            p.distance.units != 0,
            out@ == spec_project(triangles@.take(i as int), *p),
        decreases triangles@.len() - i,
    {
        out.push(project_triangle(&triangles[i], p));
        i = i + 1;
        proof {
            assert(triangles@.take(i as int).map_values(
                |t: Triangle| spec_project_triangle(t, *p),
            ) =~= triangles@.take(i - 1).map_values(
                |t: Triangle| spec_project_triangle(t, *p),
            ).push(spec_project_triangle(triangles@[i - 1], *p)));
        }
    }
    proof {
        assert(triangles@.take(triangles@.len() as int) =~= triangles@);
    }
    out
}

/// The projector is a pure function of its inputs: any two results obtained
/// from the same triangle list and the same configuration are equal.
pub proof fn lemma_project_deterministic(
    ts: Seq<Triangle>,
    p: Projection,
    r1: Seq<Triangle2D>,
    r2: Seq<Triangle2D>,
)
    requires
        r1 == spec_project(ts, p),
        r2 == spec_project(ts, p),
    ensures
        r1 == r2,
{
}

} // verus!
