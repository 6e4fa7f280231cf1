//! Rays: an origin plus a direction, evaluated parametrically.

use vstd::prelude::*;
use crate::fixed::{SCALE, div_trunc, fx_mul_spec, lemma_div_trunc_close};
use crate::vec3::{Vector3, add_spec, scale_spec};

verus! {

/// Largest origin coordinate magnitude accepted for intersection rays;
/// it leaves room for shadow-ray origins, which sit on hit surfaces.
pub const ORIGIN_MAX: i64 = 2_000_000_000;

/// A ray the intersection routine accepts: a bounded origin and a
/// direction of at most unit magnitude per component.
pub open spec fn ray_valid(r: Ray) -> bool {
    &&& crate::vec3::in_range(r.pos, ORIGIN_MAX as int)
    &&& crate::vec3::in_range(r.dir, SCALE as int)
}

/// A half-line: all points `pos + t * dir` for `t >= 0`. The direction is
/// conventionally unit length before the ray is used for intersection.
#[derive(Clone, Copy, PartialEq, Eq, Structural, Debug)]
pub struct Ray {
    pub pos: Vector3,
    pub dir: Vector3,
}

/// The point the ray reaches at parameter `t`, in fixed-point arithmetic.
pub open spec fn at_spec(r: Ray, t: int) -> Vector3 {
    add_spec(r.pos, scale_spec(r.dir, t))
}

/// The point the ray reaches at parameter `t`, exactly: the components are
/// numerators over `SCALE * SCALE`, so no truncation occurs.
pub open spec fn at_exact(r: Ray, t: int) -> (int, int, int) {
    (
        r.pos.x * (SCALE as int) + t * r.dir.x,
        r.pos.y * (SCALE as int) + t * r.dir.y,
        r.pos.z * (SCALE as int) + t * r.dir.z,
    )
}

impl Ray {
    pub fn new(pos: Vector3, dir: Vector3) -> (r: Ray)
        ensures
            r == (Ray { pos, dir }),
    {
        Ray { pos, dir }
    }

    /// Evaluate the ray at parameter `t`: `pos + dir.scale(t)`.
    /// At `t == 0` this is exactly the origin.
    pub fn at(&self, t: i64) -> (r: Vector3)
        requires
            -(i64::MAX as int) * (SCALE as int) <= self.dir.x * t <= (i64::MAX as int) * (
            SCALE as int),
            -(i64::MAX as int) * (SCALE as int) <= self.dir.y * t <= (i64::MAX as int) * (
            SCALE as int),
            -(i64::MAX as int) * (SCALE as int) <= self.dir.z * t <= (i64::MAX as int) * (
            SCALE as int),
            i64::MIN <= self.pos.x + fx_mul_spec(self.dir.x as int, t as int) <= i64::MAX,
            i64::MIN <= self.pos.y + fx_mul_spec(self.dir.y as int, t as int) <= i64::MAX,
            i64::MIN <= self.pos.z + fx_mul_spec(self.dir.z as int, t as int) <= i64::MAX,
        ensures
            r == at_spec(*self, t as int),
            t == 0 ==> r == self.pos,
    {
        proof {
            lemma_at_zero(*self);
        }
        let d = self.dir.scale(t);
        self.pos.add(&d)
    }
}

/// A ray evaluated at parameter zero yields its origin exactly.
pub proof fn lemma_at_zero(r: Ray)
    ensures
        at_spec(r, 0) == r.pos,
{
    assert(div_trunc(r.dir.x * 0, SCALE as int) == 0) by (nonlinear_arith);
    assert(div_trunc(r.dir.y * 0, SCALE as int) == 0) by (nonlinear_arith);
    assert(div_trunc(r.dir.z * 0, SCALE as int) == 0) by (nonlinear_arith);
}

/// Ray evaluation is affine-linear in the parameter: in exact arithmetic,
/// `at(a + b) - at(0) == (at(a) - at(0)) + (at(b) - at(0))`, componentwise.
pub proof fn lemma_at_affine(r: Ray, a: int, b: int)
    ensures
        at_exact(r, a + b).0 - at_exact(r, 0).0 == (at_exact(r, a).0 - at_exact(r, 0).0) + (
        at_exact(r, b).0 - at_exact(r, 0).0),
        at_exact(r, a + b).1 - at_exact(r, 0).1 == (at_exact(r, a).1 - at_exact(r, 0).1) + (
        at_exact(r, b).1 - at_exact(r, 0).1),
        at_exact(r, a + b).2 - at_exact(r, 0).2 == (at_exact(r, a).2 - at_exact(r, 0).2) + (
        at_exact(r, b).2 - at_exact(r, 0).2),
{
    assert((a + b) * r.dir.x == a * r.dir.x + b * r.dir.x) by (nonlinear_arith);
    assert((a + b) * r.dir.y == a * r.dir.y + b * r.dir.y) by (nonlinear_arith);
    assert((a + b) * r.dir.z == a * r.dir.z + b * r.dir.z) by (nonlinear_arith);
    assert(0 * r.dir.x == 0) by (nonlinear_arith);
    assert(0 * r.dir.y == 0) by (nonlinear_arith);
    assert(0 * r.dir.z == 0) by (nonlinear_arith);
}

/// The fixed-point evaluation tracks the exact affine map to within one
/// fixed-point unit per component.
pub proof fn lemma_at_close(r: Ray, t: int)
    requires
        i64::MIN <= fx_mul_spec(r.dir.x as int, t) <= i64::MAX,
        i64::MIN <= fx_mul_spec(r.dir.y as int, t) <= i64::MAX,
        i64::MIN <= fx_mul_spec(r.dir.z as int, t) <= i64::MAX,
        i64::MIN <= r.pos.x + fx_mul_spec(r.dir.x as int, t) <= i64::MAX,
        i64::MIN <= r.pos.y + fx_mul_spec(r.dir.y as int, t) <= i64::MAX,
        i64::MIN <= r.pos.z + fx_mul_spec(r.dir.z as int, t) <= i64::MAX,
    ensures
        at_exact(r, t).0 - (SCALE as int) < at_spec(r, t).x * (SCALE as int) <= at_exact(r, t).0
            + (SCALE as int),
        at_exact(r, t).1 - (SCALE as int) < at_spec(r, t).y * (SCALE as int) <= at_exact(r, t).1
            + (SCALE as int),
        at_exact(r, t).2 - (SCALE as int) < at_spec(r, t).z * (SCALE as int) <= at_exact(r, t).2
            + (SCALE as int),
{
    lemma_at_close_one(r.pos.x as int, r.dir.x as int, t);
    lemma_at_close_one(r.pos.y as int, r.dir.y as int, t);
    lemma_at_close_one(r.pos.z as int, r.dir.z as int, t);
    assert(at_spec(r, t).x == r.pos.x + fx_mul_spec(r.dir.x as int, t));
    assert(at_spec(r, t).y == r.pos.y + fx_mul_spec(r.dir.y as int, t));
    assert(at_spec(r, t).z == r.pos.z + fx_mul_spec(r.dir.z as int, t));
}

proof fn lemma_at_close_one(p: int, d: int, t: int)
    ensures
        p * (SCALE as int) + t * d - (SCALE as int) < (p + fx_mul_spec(d, t)) * (SCALE as int)
            <= p * (SCALE as int) + t * d + (SCALE as int),
{
    lemma_div_trunc_close(d * t, SCALE as int);
    let q = div_trunc(d * t, SCALE as int);
    assert(d * t - (SCALE as int) < q * (SCALE as int) <= d * t || d * t <= q * (SCALE as int)
        < d * t + (SCALE as int));
    assert(t * d == d * t) by (nonlinear_arith);
    assert((p + q) * (SCALE as int) == p * (SCALE as int) + q * (SCALE as int))
        by (nonlinear_arith);
}

} // verus!
