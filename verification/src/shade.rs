//! The shading pipeline: Lambertian diffuse lighting with a hard shadow
//! test against the scene.

use vstd::prelude::*;
use crate::fixed::{
    SCALE, div_trunc, fx_mul, fx_mul_spec, fx_div_spec, lemma_div_trunc_le,
    lemma_div_trunc_mono_nonneg,
};
use crate::material::Color;
use crate::ray::{Ray, ray_valid, at_spec};
use crate::scene::{Scene, scene_valid, Intersection, hit_of};
use crate::sphere::{intersection_spec, lemma_primary_hit_bound, T_PRIMARY_MAX};
use crate::material::light_valid;
use crate::sphere::sphere_valid;
use crate::vec3::{
    Vector3, DegenerateVectorError, in_range, length_spec, dot_spec, add_spec, sub_spec, neg_spec,
    scale_spec, unit_of, lemma_unit_of_in_range, POS_MAX, VEC_MAX,
};

verus! {

/// Largest accepted shadow-ray offset along the surface normal.
pub const BIAS_MAX: i64 = 1_000_000;

/// The Lambertian normalization constant `2 / pi`, in fixed-point.
pub const DIFFUSE_REFLECTED: i64 = 637;

/// The point on the primary ray where the sphere was hit.
pub open spec fn shade_hit_point(ray: Ray, hit: Intersection) -> Vector3 {
    at_spec(ray, hit.distance as int)
}

/// Surface normal direction (not yet unit length) at the hit point.
pub open spec fn shade_normal_vec(sc: Scene, ray: Ray, hit: Intersection) -> Vector3 {
    sub_spec(shade_hit_point(ray, hit), sc.spheres@[hit.object as int].pos)
}

/// Direction from the light to the hit point (not yet unit length).
pub open spec fn shade_light_vec(sc: Scene, ray: Ray, hit: Intersection) -> Vector3 {
    sub_spec(shade_hit_point(ray, hit), sc.light.pos)
}

/// Shading cannot proceed when the hit point coincides with the sphere
/// center or the light position.
pub open spec fn shade_degenerate(sc: Scene, ray: Ray, hit: Intersection) -> bool {
    length_spec(shade_normal_vec(sc, ray, hit)) == 0 || length_spec(shade_light_vec(sc, ray, hit))
        == 0
}

/// The shadow ray: origin offset from the hit point along the unit normal
/// by `bias`, direction from the surface toward the light.
pub open spec fn shadow_ray_spec(sc: Scene, ray: Ray, hit: Intersection, bias: i64) -> Ray {
    Ray {
        pos: add_spec(
            shade_hit_point(ray, hit),
            scale_spec(unit_of(shade_normal_vec(sc, ray, hit)), bias as int),
        ),
        dir: neg_spec(unit_of(shade_light_vec(sc, ray, hit))),
    }
}

/// The hit point sees the light exactly when no sphere intersects the
/// shadow ray (at any distance: occlusion is not clipped at the light).
pub open spec fn shade_in_light(sc: Scene, ray: Ray, hit: Intersection, bias: i64) -> bool {
    forall|i: int|
        0 <= i < sc.spheres@.len() ==> (#[trigger] hit_of(
            sc,
            shadow_ray_spec(sc, ray, hit, bias),
            i,
        )) is None
}

/// The Lambertian cosine term, clamped to non-negative: back-facing
/// surfaces receive no light.
pub open spec fn shade_cos(sc: Scene, ray: Ray, hit: Intersection) -> int {
    let c = dot_spec(
        unit_of(shade_normal_vec(sc, ray, hit)),
        neg_spec(unit_of(shade_light_vec(sc, ray, hit))),
    );
    if c >= 0 {
        c
    } else {
        0
    }
}

/// Incident light power: the cosine term times the light intensity, or
/// times zero when the point is in shadow.
pub open spec fn shade_power(sc: Scene, ray: Ray, hit: Intersection, bias: i64) -> int {
    fx_mul_spec(
        shade_cos(sc, ray, hit),
        if shade_in_light(sc, ray, hit, bias) {
            sc.light.intensity as int
        } else {
            0
        },
    )
}

/// One output channel: material channel times light power times `2 / pi`.
pub open spec fn shade_channel(ch: int, power: int) -> int {
    fx_mul_spec(fx_mul_spec(ch, power), DIFFUSE_REFLECTED as int)
}

/// The full shading result, or `None` on degenerate geometry.
pub open spec fn shade_spec(sc: Scene, ray: Ray, hit: Intersection, bias: i64) -> Option<Color> {
    if shade_degenerate(sc, ray, hit) {
        None
    } else {
        let p = shade_power(sc, ray, hit, bias);
        let col = sc.spheres@[hit.object as int].material.coloration;
        Some(
            Color {
                red: shade_channel(col.red as int, p) as i64,
                green: shade_channel(col.green as int, p) as i64,
                blue: shade_channel(col.blue as int, p) as i64,
            },
        )
    }
}

/// Shade a primary-ray hit: Lambertian diffuse lighting attenuated by a
/// hard shadow test. Degenerate geometry (hit point on the sphere center
/// or on the light) is an error, not a silent wrong color.
pub fn get_color(scene: &Scene, ray: &Ray, hit: &Intersection, shadow_bias: i64) -> (res: Result<
    Color,
    DegenerateVectorError,
>)
    requires
        scene_valid(*scene),
        in_range(ray.pos, POS_MAX as int),
        in_range(ray.dir, SCALE as int),
        0 <= hit.object < scene.spheres@.len(),
        intersection_spec(scene.spheres@[hit.object as int], *ray) == Some(hit.distance),
        0 <= shadow_bias <= BIAS_MAX,
    ensures
        res matches Ok(c) ==> shade_spec(*scene, *ray, *hit, shadow_bias) == Some(c),
        res is Err <==> shade_spec(*scene, *ray, *hit, shadow_bias) is None,
{
    let ghost sphere_g = scene.spheres@[hit.object as int];
    proof {
        lemma_primary_hit_bound(sphere_g, *ray);
        assert(0 <= hit.distance <= T_PRIMARY_MAX);
        lemma_at_bounds(*ray, hit.distance);
    }
    let hit_point = ray.at(hit.distance);
    let sphere = &scene.spheres[hit.object];
    let normal_vec = hit_point.sub(&sphere.pos);
    let light_vec = hit_point.sub(&scene.light.pos);
    let n_unit = match normal_vec.normalize() {
        Ok(u) => u,
        Err(e) => {
            return Err(e);
        },
    };
    let l_unit = match light_vec.normalize() {
        Ok(u) => u,
        Err(e) => {
            return Err(e);
        },
    };
    let neg_l = l_unit.neg();
    proof {
        assert(-(BIAS_MAX as int) * (SCALE as int) <= n_unit.x * shadow_bias <= (BIAS_MAX as int)
            * (SCALE as int)) by (nonlinear_arith)
            requires
                -SCALE <= n_unit.x <= SCALE && 0 <= shadow_bias <= BIAS_MAX && SCALE == 1000
                    && BIAS_MAX == 1_000_000int,
        ;
        assert(-(BIAS_MAX as int) * (SCALE as int) <= n_unit.y * shadow_bias <= (BIAS_MAX as int)
            * (SCALE as int)) by (nonlinear_arith)
            requires
                -SCALE <= n_unit.y <= SCALE && 0 <= shadow_bias <= BIAS_MAX && SCALE == 1000
                    && BIAS_MAX == 1_000_000int,
        ;
        assert(-(BIAS_MAX as int) * (SCALE as int) <= n_unit.z * shadow_bias <= (BIAS_MAX as int)
            * (SCALE as int)) by (nonlinear_arith)
            requires
                -SCALE <= n_unit.z <= SCALE && 0 <= shadow_bias <= BIAS_MAX && SCALE == 1000
                    && BIAS_MAX == 1_000_000int,
        ;
        lemma_div_trunc_le(n_unit.x * shadow_bias, SCALE as int, BIAS_MAX as int);
        lemma_div_trunc_le(n_unit.y * shadow_bias, SCALE as int, BIAS_MAX as int);
        lemma_div_trunc_le(n_unit.z * shadow_bias, SCALE as int, BIAS_MAX as int);
    }
    let scaled_n = n_unit.scale(shadow_bias);
    let shadow_pos = hit_point.add(&scaled_n);
    let shadow_ray = Ray::new(shadow_pos, neg_l);
    proof {
        assert(n_unit == unit_of(shade_normal_vec(*scene, *ray, *hit)));
        assert(l_unit == unit_of(shade_light_vec(*scene, *ray, *hit)));
        assert(shadow_ray == shadow_ray_spec(*scene, *ray, *hit, shadow_bias));
        assert(ray_valid(shadow_ray));
    }
    let shadow_hit = scene.nearest_hit(&shadow_ray);
    let in_light = shadow_hit.is_none();
    proof {
        match shadow_hit {
            None => {
                assert(shade_in_light(*scene, *ray, *hit, shadow_bias));
            },
            Some(h) => {
                assert(hit_of(*scene, shadow_ray, h.object as int) is Some);
                assert(!shade_in_light(*scene, *ray, *hit, shadow_bias));
            },
        }
    }
    let light_intensity: i64 = if in_light {
        scene.light.intensity
    } else {
        0
    };
    let cos_raw = n_unit.dot(&neg_l);
    let cos: i64 = if cos_raw >= 0 {
        cos_raw
    } else {
        0
    };
    proof {
        lemma_unit_dot_bound(n_unit, neg_l);
        assert(0 <= cos <= 3 * (SCALE as int));
        assert(-(3_000_000_000int) * (SCALE as int) <= cos * light_intensity <= 3_000_000_000int
            * (SCALE as int)) by (nonlinear_arith)
            requires
                0 <= cos <= 3000 && 0 <= light_intensity <= 1_000_000_000int && SCALE == 1000,
        ;
        lemma_div_trunc_le(cos * light_intensity, SCALE as int, 3_000_000_000int);
    }
    let power = fx_mul(cos, light_intensity);
    let col = &sphere.material.coloration;
    let red = shade_one_channel(col.red, power);
    let green = shade_one_channel(col.green, power);
    let blue = shade_one_channel(col.blue, power);
    Ok(Color::new(red, green, blue))
}

/// One channel of the diffuse term: `channel * power * (2 / pi)`.
fn shade_one_channel(ch: i64, power: i64) -> (r: i64)
    requires
        0 <= ch <= 1_000_000_000,
        0 <= power <= 3_000_000_000,
    ensures
        r == shade_channel(ch as int, power as int),
{
    proof {
        assert(0 <= ch * power <= 1_000_000_000_000_000_000int * 3) by (nonlinear_arith)
            requires
                0 <= ch <= 1_000_000_000int && 0 <= power <= 3_000_000_000int,
        ;
        lemma_div_trunc_le(ch * power, SCALE as int, 3_000_000_000_000_000int);
    }
    let c1 = fx_mul(ch, power);
    proof {
        assert(0 <= c1 * DIFFUSE_REFLECTED <= 3_000_000_000_000_000int * 637) by (nonlinear_arith)
            requires
                0 <= c1 <= 3_000_000_000_000_000int && DIFFUSE_REFLECTED == 637,
        ;
    }
    fx_mul(c1, DIFFUSE_REFLECTED)
}

/// Evaluating the primary ray at a hit distance stays within every bound
/// the vector operations need.
proof fn lemma_at_bounds(r: Ray, t: i64)
    requires
        in_range(r.pos, POS_MAX as int),
        in_range(r.dir, SCALE as int),
        0 <= t <= T_PRIMARY_MAX,
    ensures
        -(i64::MAX as int) * (SCALE as int) <= r.dir.x * t <= (i64::MAX as int) * (SCALE as int),
        -(i64::MAX as int) * (SCALE as int) <= r.dir.y * t <= (i64::MAX as int) * (SCALE as int),
        -(i64::MAX as int) * (SCALE as int) <= r.dir.z * t <= (i64::MAX as int) * (SCALE as int),
        -(T_PRIMARY_MAX as int) <= fx_mul_spec(r.dir.x as int, t as int) <= T_PRIMARY_MAX as int,
        -(T_PRIMARY_MAX as int) <= fx_mul_spec(r.dir.y as int, t as int) <= T_PRIMARY_MAX as int,
        -(T_PRIMARY_MAX as int) <= fx_mul_spec(r.dir.z as int, t as int) <= T_PRIMARY_MAX as int,
        -((POS_MAX + T_PRIMARY_MAX) as int) <= r.pos.x + fx_mul_spec(r.dir.x as int, t as int)
            <= (POS_MAX + T_PRIMARY_MAX) as int,
        -((POS_MAX + T_PRIMARY_MAX) as int) <= r.pos.y + fx_mul_spec(r.dir.y as int, t as int)
            <= (POS_MAX + T_PRIMARY_MAX) as int,
        -((POS_MAX + T_PRIMARY_MAX) as int) <= r.pos.z + fx_mul_spec(r.dir.z as int, t as int)
            <= (POS_MAX + T_PRIMARY_MAX) as int,
        in_range(at_spec(r, t as int), (POS_MAX + T_PRIMARY_MAX) as int),
{
    lemma_at_bounds_one(r.pos.x as int, r.dir.x as int, t as int);
    lemma_at_bounds_one(r.pos.y as int, r.dir.y as int, t as int);
    lemma_at_bounds_one(r.pos.z as int, r.dir.z as int, t as int);
}

proof fn lemma_at_bounds_one(p: int, d: int, t: int)
    requires
        -(POS_MAX as int) <= p <= POS_MAX as int,
        -(SCALE as int) <= d <= SCALE as int,
        0 <= t <= T_PRIMARY_MAX,
    ensures
        -(i64::MAX as int) * (SCALE as int) <= d * t <= (i64::MAX as int) * (SCALE as int),
        -(T_PRIMARY_MAX as int) <= fx_mul_spec(d, t) <= T_PRIMARY_MAX as int,
        -((POS_MAX + T_PRIMARY_MAX) as int) <= p + fx_mul_spec(d, t) <= (POS_MAX
            + T_PRIMARY_MAX) as int,
{
    assert(-(T_PRIMARY_MAX as int) * (SCALE as int) <= d * t <= (T_PRIMARY_MAX as int) * (
    SCALE as int)) by (nonlinear_arith)
        requires
            -SCALE <= d <= SCALE && 0 <= t <= T_PRIMARY_MAX && SCALE == 1000 && T_PRIMARY_MAX
                == 200_000_000int,
    ;
    lemma_div_trunc_le(d * t, SCALE as int, T_PRIMARY_MAX as int);
}

/// The dot product of two unit-range vectors is at most three.
proof fn lemma_unit_dot_bound(u: Vector3, v: Vector3)
    requires
        in_range(u, SCALE as int),
        in_range(v, SCALE as int),
    ensures
        -3 * (SCALE as int) <= dot_spec(u, v) <= 3 * (SCALE as int),
{
    assert(-(SCALE as int) * (SCALE as int) <= u.x * v.x <= (SCALE as int) * (SCALE as int))
        by (nonlinear_arith)
        requires
            -SCALE <= u.x <= SCALE && -SCALE <= v.x <= SCALE,
    ;
    assert(-(SCALE as int) * (SCALE as int) <= u.y * v.y <= (SCALE as int) * (SCALE as int))
        by (nonlinear_arith)
        requires
            -SCALE <= u.y <= SCALE && -SCALE <= v.y <= SCALE,
    ;
    assert(-(SCALE as int) * (SCALE as int) <= u.z * v.z <= (SCALE as int) * (SCALE as int))
        by (nonlinear_arith)
        requires
            -SCALE <= u.z <= SCALE && -SCALE <= v.z <= SCALE,
    ;
    lemma_div_trunc_le(u.x * v.x + u.y * v.y + u.z * v.z, SCALE as int, 3 * (SCALE as int));
}

/// A shadowed point receives no light at all: with an occluder between the
/// surface and the light, every output channel is exactly zero.
pub proof fn lemma_shadowed_is_black(sc: Scene, ray: Ray, hit: Intersection, bias: i64)
    requires
        shade_spec(sc, ray, hit, bias) is Some,
        !shade_in_light(sc, ray, hit, bias),
    ensures
        shade_spec(sc, ray, hit, bias) == Some(Color { red: 0i64, green: 0i64, blue: 0i64 }),
{
    let cos = shade_cos(sc, ray, hit);
    assert(cos * 0 == 0) by (nonlinear_arith);
    assert(div_trunc(0, SCALE as int) == 0) by (nonlinear_arith)
        requires
            SCALE == 1000,
    ;
    assert(shade_power(sc, ray, hit, bias) == 0);
    let col = sc.spheres@[hit.object as int].material.coloration;
    lemma_channel_zero(col.red as int);
    lemma_channel_zero(col.green as int);
    lemma_channel_zero(col.blue as int);
}

proof fn lemma_channel_zero(ch: int)
    ensures
        shade_channel(ch, 0) == 0,
{
    assert(ch * 0 == 0) by (nonlinear_arith);
    assert(div_trunc(0, SCALE as int) == 0) by (nonlinear_arith)
        requires
            SCALE == 1000,
    ;
    assert(0 * (DIFFUSE_REFLECTED as int) == 0) by (nonlinear_arith);
}

/// Bounds along the shading chain for a camera-ray hit in a valid scene:
/// the hit point, the normal and light offsets, their unit vectors and the
/// cosine term all stay within the fixed-point operating ranges.
proof fn lemma_shade_chain_bounds(sc: Scene, ray: Ray, hit: Intersection)
    requires
        scene_valid(sc),
        in_range(ray.pos, POS_MAX as int),
        in_range(ray.dir, SCALE as int),
        0 <= hit.object < sc.spheres@.len(),
        intersection_spec(sc.spheres@[hit.object as int], ray) == Some(hit.distance),
        !shade_degenerate(sc, ray, hit),
    ensures
        in_range(shade_normal_vec(sc, ray, hit), VEC_MAX as int),
        in_range(shade_light_vec(sc, ray, hit), VEC_MAX as int),
        in_range(unit_of(shade_normal_vec(sc, ray, hit)), SCALE as int),
        in_range(unit_of(shade_light_vec(sc, ray, hit)), SCALE as int),
        0 <= shade_cos(sc, ray, hit) <= 3 * (SCALE as int),
{
    assert(sphere_valid(sc.spheres@[hit.object as int]));
    lemma_primary_hit_bound(sc.spheres@[hit.object as int], ray);
    lemma_at_bounds(ray, hit.distance);
    let hp = shade_hit_point(ray, hit);
    assert(in_range(hp, (POS_MAX + T_PRIMARY_MAX) as int));
    let nv = shade_normal_vec(sc, ray, hit);
    let lv = shade_light_vec(sc, ray, hit);
    assert(in_range(nv, VEC_MAX as int));
    assert(in_range(lv, VEC_MAX as int));
    lemma_unit_of_in_range(nv);
    lemma_unit_of_in_range(lv);
    let nu = unit_of(nv);
    let nl = neg_spec(unit_of(lv));
    assert(in_range(nl, SCALE as int));
    lemma_unit_dot_bound(nu, nl);
}

/// An unshadowed, front-facing point receives strictly positive light:
/// with no occluder, a front-facing normal, a light of at least unit
/// intensity, and channels of at least two units, every channel of the
/// output is strictly positive.
pub proof fn lemma_lit_is_positive(sc: Scene, ray: Ray, hit: Intersection, bias: i64)
    requires
        scene_valid(sc),
        in_range(ray.pos, POS_MAX as int),
        in_range(ray.dir, SCALE as int),
        0 <= hit.object < sc.spheres@.len(),
        intersection_spec(sc.spheres@[hit.object as int], ray) == Some(hit.distance),
        shade_spec(sc, ray, hit, bias) is Some,
        shade_in_light(sc, ray, hit, bias),
        shade_cos(sc, ray, hit) >= 1,
        sc.light.intensity >= SCALE,
        sc.spheres@[hit.object as int].material.coloration.red >= 2 * SCALE,
        sc.spheres@[hit.object as int].material.coloration.green >= 2 * SCALE,
        sc.spheres@[hit.object as int].material.coloration.blue >= 2 * SCALE,
    ensures
        shade_spec(sc, ray, hit, bias) matches Some(c) ==> c.red > 0 && c.green > 0 && c.blue > 0,
{
    lemma_shade_chain_bounds(sc, ray, hit);
    let cos = shade_cos(sc, ray, hit);
    let intensity = sc.light.intensity as int;
    assert(light_valid(sc.light));
    assert(cos * intensity >= 1 * (SCALE as int)) by (nonlinear_arith)
        requires
            cos >= 1 && intensity >= SCALE && SCALE == 1000,
    ;
    assert(cos * intensity <= 3000 * 1_000_000_000int) by (nonlinear_arith)
        requires
            0 <= cos <= 3000 && 0 <= intensity <= 1_000_000_000int,
    ;
    lemma_div_trunc_mono_nonneg(SCALE as int, cos * intensity, SCALE as int);
    assert(div_trunc(SCALE as int, SCALE as int) == 1) by (nonlinear_arith)
        requires
            SCALE == 1000,
    ;
    lemma_div_trunc_le(cos * intensity, SCALE as int, 3_000_000_000int);
    let power = shade_power(sc, ray, hit, bias);
    assert(1 <= power <= 3_000_000_000int);
    let col = sc.spheres@[hit.object as int].material.coloration;
    assert(sphere_valid(sc.spheres@[hit.object as int]));
    lemma_channel_positive(col.red as int, power);
    lemma_channel_positive(col.green as int, power);
    lemma_channel_positive(col.blue as int, power);
}

proof fn lemma_channel_positive(ch: int, power: int)
    requires
        2 * (SCALE as int) <= ch <= 1_000_000_000int,
        1 <= power <= 3_000_000_000int,
    ensures
        0 < shade_channel(ch, power) <= 2_000_000_000_000_000int,
{
    assert(2 * (SCALE as int) <= ch * power <= 3_000_000_000_000_000_000int) by (nonlinear_arith)
        requires
            2 * 1000 <= ch <= 1_000_000_000int && 1 <= power <= 3_000_000_000int && SCALE == 1000,
    ;
    lemma_div_trunc_mono_nonneg(2 * (SCALE as int), ch * power, SCALE as int);
    assert(div_trunc(2 * (SCALE as int), SCALE as int) == 2) by (nonlinear_arith)
        requires
            SCALE == 1000,
    ;
    lemma_div_trunc_le(ch * power, SCALE as int, 3_000_000_000_000_000int);
    let c1 = fx_mul_spec(ch, power);
    assert(2 <= c1 <= 3_000_000_000_000_000int);
    assert(2 * 637 <= c1 * (DIFFUSE_REFLECTED as int) <= 3_000_000_000_000_000int * 637)
        by (nonlinear_arith)
        requires
            2 <= c1 <= 3_000_000_000_000_000int && DIFFUSE_REFLECTED == 637,
    ;
    lemma_div_trunc_mono_nonneg(1274, c1 * (DIFFUSE_REFLECTED as int), SCALE as int);
    assert(div_trunc(1274, SCALE as int) == 1) by (nonlinear_arith)
        requires
            SCALE == 1000,
    ;
    lemma_div_trunc_le(c1 * (DIFFUSE_REFLECTED as int), SCALE as int, 2_000_000_000_000_000int);
}

} // verus!
