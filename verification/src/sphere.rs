//! Spheres and the closed-form ray-sphere intersection.

use vstd::prelude::*;
use crate::fixed::{
    SCALE, div_trunc, fx_mul, fx_mul_spec, fx_sqrt, fx_sqrt_spec, sqrt_nat, lemma_sqrt_exists,
    lemma_sqrt_square, lemma_sqrt_monotone, lemma_div_trunc_le,
};
use crate::material::{Material, material_valid};
use crate::ray::{Ray, ray_valid};
use crate::vec3::{Vector3, in_range, dot_spec, sub_spec, POS_MAX};

verus! {

/// Largest intersection distance the intersection routine can return.
pub const T_MAX: i64 = 18_000_000_000;

/// Bound on the center-minus-origin offset of a valid sphere and ray.
pub const L_MAX: i64 = 2_010_000_000;

/// Bound on the projection `adj` of the offset onto the ray direction.
pub const ADJ_MAX: i64 = 6_030_000_000;

/// Bound on the squared quantities `ll`, `adj * adj` and `radius * radius`
/// (as fixed-point scalars).
pub const SQ_MAX: i64 = 40_000_000_000_000_000;

/// Bound on the half-chord length.
pub const THC_MAX: i64 = 11_000_000_000;

/// A sphere with its surface material.
#[derive(Clone, Copy, PartialEq, Eq, Structural, Debug)]
pub struct Sphere {
    pub pos: Vector3,
    pub radius: i64,
    pub material: Material,
}

/// Geometry the renderer accepts: a bounded center, a positive bounded
/// radius, and a valid material.
pub open spec fn sphere_valid(s: Sphere) -> bool {
    &&& in_range(s.pos, POS_MAX as int)
    &&& 0 < s.radius <= POS_MAX
    &&& material_valid(s.material)
}

/// Offset from the ray origin to the sphere center.
pub open spec fn inter_l(s: Sphere, r: Ray) -> Vector3 {
    sub_spec(s.pos, r.pos)
}

/// Projection of the offset onto the ray direction.
pub open spec fn inter_adj(s: Sphere, r: Ray) -> int {
    dot_spec(inter_l(s, r), r.dir)
}

/// Squared length of the offset.
pub open spec fn inter_ll(s: Sphere, r: Ray) -> int {
    dot_spec(inter_l(s, r), inter_l(s, r))
}

/// Squared perpendicular distance from the center to the ray line.
pub open spec fn inter_d2(s: Sphere, r: Ray) -> int {
    inter_ll(s, r) - fx_mul_spec(inter_adj(s, r), inter_adj(s, r))
}

/// The sphere's squared radius as a fixed-point scalar.
pub open spec fn inter_r2(s: Sphere) -> int {
    fx_mul_spec(s.radius as int, s.radius as int)
}

/// Half-chord length: distance along the ray between the two roots' midpoint
/// and either root.
pub open spec fn inter_thc(s: Sphere, r: Ray) -> int {
    fx_sqrt_spec(inter_r2(s) - inter_d2(s, r))
}

/// The near intersection root.
pub open spec fn inter_t0(s: Sphere, r: Ray) -> int {
    inter_adj(s, r) - inter_thc(s, r)
}

/// The far intersection root.
pub open spec fn inter_t1(s: Sphere, r: Ray) -> int {
    inter_adj(s, r) + inter_thc(s, r)
}

/// The full intersection contract: no hit when the ray line passes outside
/// the sphere or the sphere lies behind the origin; otherwise the smallest
/// non-negative root.
pub open spec fn intersection_spec(s: Sphere, r: Ray) -> Option<i64> {
    if inter_d2(s, r) > inter_r2(s) {
        None
    } else if inter_t0(s, r) < 0 && inter_t1(s, r) < 0 {
        None
    } else if inter_t0(s, r) >= 0 {
        Some(inter_t0(s, r) as i64)
    } else {
        Some(inter_t1(s, r) as i64)
    }
}

/// Bounds on every intermediate quantity of the intersection computation,
/// for a valid sphere and ray.
pub proof fn lemma_inter_bounds(s: Sphere, r: Ray)
    requires
        in_range(s.pos, POS_MAX as int),
        0 < s.radius <= POS_MAX,
        ray_valid(r),
    ensures
        in_range(inter_l(s, r), L_MAX as int),
        -ADJ_MAX <= inter_adj(s, r) <= ADJ_MAX,
        0 <= inter_ll(s, r) <= SQ_MAX,
        0 <= fx_mul_spec(inter_adj(s, r), inter_adj(s, r)) <= SQ_MAX,
        0 <= inter_r2(s) <= SQ_MAX,
        inter_d2(s, r) <= inter_r2(s) ==> 0 <= inter_thc(s, r) <= THC_MAX,
{
    let l = inter_l(s, r);
    assert(in_range(l, L_MAX as int));
    let sum_ld = l.x * r.dir.x + l.y * r.dir.y + l.z * r.dir.z;
    assert(-(L_MAX as int) * (SCALE as int) <= l.x * r.dir.x <= (L_MAX as int) * (SCALE as int))
        by (nonlinear_arith)
        requires
            -L_MAX <= l.x <= L_MAX && -SCALE <= r.dir.x <= SCALE,
    ;
    assert(-(L_MAX as int) * (SCALE as int) <= l.y * r.dir.y <= (L_MAX as int) * (SCALE as int))
        by (nonlinear_arith)
        requires
            -L_MAX <= l.y <= L_MAX && -SCALE <= r.dir.y <= SCALE,
    ;
    assert(-(L_MAX as int) * (SCALE as int) <= l.z * r.dir.z <= (L_MAX as int) * (SCALE as int))
        by (nonlinear_arith)
        requires
            -L_MAX <= l.z <= L_MAX && -SCALE <= r.dir.z <= SCALE,
    ;
    lemma_div_trunc_le(sum_ld, SCALE as int, ADJ_MAX as int);

    let sum_ll = l.x * l.x + l.y * l.y + l.z * l.z;
    assert(0 <= l.x * l.x <= (L_MAX as int) * (L_MAX as int)) by (nonlinear_arith)
        requires
            -L_MAX <= l.x <= L_MAX,
    ;
    assert(0 <= l.y * l.y <= (L_MAX as int) * (L_MAX as int)) by (nonlinear_arith)
        requires
            -L_MAX <= l.y <= L_MAX,
    ;
    assert(0 <= l.z * l.z <= (L_MAX as int) * (L_MAX as int)) by (nonlinear_arith)
        requires
            -L_MAX <= l.z <= L_MAX,
    ;
    lemma_div_trunc_le(sum_ll, SCALE as int, SQ_MAX as int);
    assert(inter_ll(s, r) >= 0);

    let adj = inter_adj(s, r);
    assert(0 <= adj * adj <= (ADJ_MAX as int) * (ADJ_MAX as int)) by (nonlinear_arith)
        requires
            -ADJ_MAX <= adj <= ADJ_MAX,
    ;
    lemma_div_trunc_le(adj * adj, SCALE as int, SQ_MAX as int);
    assert(fx_mul_spec(adj, adj) >= 0);

    assert(0 < s.radius * s.radius <= (POS_MAX as int) * (POS_MAX as int)) by (nonlinear_arith)
        requires
            0 < s.radius <= POS_MAX,
    ;
    lemma_div_trunc_le(s.radius * s.radius, SCALE as int, SQ_MAX as int);
    assert(inter_r2(s) >= 0);

    if inter_d2(s, r) <= inter_r2(s) {
        let arg = inter_r2(s) - inter_d2(s, r);
        assert(0 <= arg <= 2 * SQ_MAX + SQ_MAX);
        lemma_thc_bound(arg);
    }
}

/// The half-chord length is bounded whenever its squared argument is in
/// range.
proof fn lemma_thc_bound(arg: int)
    requires
        0 <= arg <= 3 * (SQ_MAX as int),
    ensures
        0 <= fx_sqrt_spec(arg) <= THC_MAX,
{
    let n = (arg * (SCALE as int)) as nat;
    lemma_sqrt_exists(n);
    let q = sqrt_nat(n);
    let b = THC_MAX as nat;
    assert(n <= 3 * (SQ_MAX as int) * (SCALE as int));
    assert(3 * (SQ_MAX as int) * (SCALE as int) < (b * b) as int) by (nonlinear_arith)
        requires
            b == THC_MAX as nat && SQ_MAX == 40_000_000_000_000_000int && SCALE == 1000
                && THC_MAX == 11_000_000_000int,
    ;
    lemma_sqrt_square(b);
    lemma_sqrt_monotone(n, (b * b) as nat);
}

/// Largest intersection distance a camera ray (origin within `POS_MAX`)
/// can produce.
pub const T_PRIMARY_MAX: i64 = 200_000_000;

/// A camera ray's hit distance is far smaller than the general bound:
/// its origin lies within the scene bounds, not merely within `ORIGIN_MAX`.
pub proof fn lemma_primary_hit_bound(s: Sphere, r: Ray)
    requires
        in_range(s.pos, POS_MAX as int),
        0 < s.radius <= POS_MAX,
        in_range(r.pos, POS_MAX as int),
        in_range(r.dir, SCALE as int),
    ensures
        intersection_spec(s, r) matches Some(t) ==> 0 <= t <= T_PRIMARY_MAX,
{
    let l = inter_l(s, r);
    let lb = 2 * (POS_MAX as int);
    assert(in_range(l, lb));
    let sum_ld = l.x * r.dir.x + l.y * r.dir.y + l.z * r.dir.z;
    assert(-lb * (SCALE as int) <= l.x * r.dir.x <= lb * (SCALE as int)) by (nonlinear_arith)
        requires
            -lb <= l.x <= lb && -SCALE <= r.dir.x <= SCALE && lb == 20_000_000int,
    ;
    assert(-lb * (SCALE as int) <= l.y * r.dir.y <= lb * (SCALE as int)) by (nonlinear_arith)
        requires
            -lb <= l.y <= lb && -SCALE <= r.dir.y <= SCALE && lb == 20_000_000int,
    ;
    assert(-lb * (SCALE as int) <= l.z * r.dir.z <= lb * (SCALE as int)) by (nonlinear_arith)
        requires
            -lb <= l.z <= lb && -SCALE <= r.dir.z <= SCALE && lb == 20_000_000int,
    ;
    lemma_div_trunc_le(sum_ld, SCALE as int, 3 * lb);
    let adj = inter_adj(s, r);
    assert(-60_000_000 <= adj <= 60_000_000);

    assert(0 <= adj * adj <= 60_000_000 * 60_000_000int) by (nonlinear_arith)
        requires
            -60_000_000 <= adj <= 60_000_000,
    ;
    lemma_div_trunc_le(adj * adj, SCALE as int, 3_600_000_000_000int);
    let adj2 = fx_mul_spec(adj, adj);
    assert(0 <= adj2 <= 3_600_000_000_000int);

    assert(0 < s.radius * s.radius <= (POS_MAX as int) * (POS_MAX as int)) by (nonlinear_arith)
        requires
            0 < s.radius <= POS_MAX,
    ;
    lemma_div_trunc_le(s.radius * s.radius, SCALE as int, 100_000_000_000int);
    assert(0 <= inter_r2(s) <= 100_000_000_000int);

    let sum_ll = l.x * l.x + l.y * l.y + l.z * l.z;
    assert(0 <= l.x * l.x) by (nonlinear_arith);
    assert(0 <= l.y * l.y) by (nonlinear_arith);
    assert(0 <= l.z * l.z) by (nonlinear_arith);
    lemma_div_trunc_le(sum_ll, SCALE as int, sum_ll);
    assert(inter_ll(s, r) >= 0) by {
        crate::fixed::lemma_div_trunc_mul_le(sum_ll, SCALE as int);
        assert(inter_ll(s, r) * (SCALE as int) >= 0);
        assert(inter_ll(s, r) >= 0) by (nonlinear_arith)
            requires
                inter_ll(s, r) * (SCALE as int) >= 0 && SCALE == 1000,
        ;
    }

    if inter_d2(s, r) <= inter_r2(s) {
        let arg = inter_r2(s) - inter_d2(s, r);
        assert(arg <= inter_r2(s) + adj2);
        assert(0 <= arg <= 3_700_000_000_000int);
        let n = (arg * (SCALE as int)) as nat;
        lemma_sqrt_exists(n);
        assert(n <= 3_700_000_000_000_000nat) by (nonlinear_arith)
            requires
                0 <= arg <= 3_700_000_000_000int && SCALE == 1000 && n == (arg * (
                SCALE as int)) as nat,
        ;
        lemma_sqrt_square(100_000_000nat);
        lemma_sqrt_monotone(n, (100_000_000 * 100_000_000) as nat);
        assert(0 <= inter_thc(s, r) <= 100_000_000);
        assert(inter_t1(s, r) <= 160_000_000);
    }
}

/// A ray whose origin lies outside the sphere and whose direction points
/// away from or past it (a non-positive projection `adj`) never hits.
pub proof fn lemma_miss_outside_behind(s: Sphere, r: Ray)
    requires
        in_range(s.pos, POS_MAX as int),
        0 < s.radius <= POS_MAX,
        ray_valid(r),
        inter_ll(s, r) > inter_r2(s),
        inter_adj(s, r) <= 0,
    ensures
        intersection_spec(s, r) is None,
{
    lemma_inter_bounds(s, r);
    if inter_d2(s, r) <= inter_r2(s) {
        let adj = inter_adj(s, r);
        let adj2 = fx_mul_spec(adj, adj);
        let arg = inter_r2(s) - inter_d2(s, r);
        assert(arg == inter_r2(s) - inter_ll(s, r) + adj2);
        assert(arg <= adj2 - 1);
        crate::fixed::lemma_div_trunc_mul_le(adj * adj, SCALE as int);
        assert(adj2 * (SCALE as int) <= adj * adj);
        let thc = inter_thc(s, r);
        let n = (arg * (SCALE as int)) as nat;
        lemma_sqrt_exists(n);
        assert(thc == sqrt_nat(n));
        assert(thc * thc <= n);
        assert((adj2 - 1) * (SCALE as int) == adj2 * (SCALE as int) - (SCALE as int))
            by (nonlinear_arith);
        assert(arg * (SCALE as int) <= (adj2 - 1) * (SCALE as int)) by (nonlinear_arith)
            requires
                arg <= adj2 - 1 && SCALE == 1000,
        ;
        assert(thc * thc < adj * adj);
        assert(thc < -adj) by (nonlinear_arith)
            requires
                thc >= 0 && -adj >= 0 && thc * thc < adj * adj,
        ;
        assert(inter_t1(s, r) < 0);
        assert(inter_t0(s, r) < 0);
    }
}

/// A ray through the sphere's center, cast from outside toward it, meets it
/// at `adj - radius` and `adj + radius`, and the returned distance is the
/// near root `adj - radius`. (Stated for radii whose square is exactly
/// representable, `radius * radius % SCALE == 0`; otherwise the computed
/// half-chord may fall one unit short.)
pub proof fn lemma_center_line_roots(s: Sphere, r: Ray)
    requires
        in_range(s.pos, POS_MAX as int),
        0 < s.radius <= POS_MAX,
        ray_valid(r),
        inter_d2(s, r) == 0,
        inter_ll(s, r) > inter_r2(s),
        inter_adj(s, r) >= 0,
        (s.radius as int) * (s.radius as int) % (SCALE as int) == 0,
    ensures
        inter_thc(s, r) == s.radius,
        inter_t0(s, r) == inter_adj(s, r) - s.radius,
        inter_t1(s, r) == inter_adj(s, r) + s.radius,
        intersection_spec(s, r) == Some((inter_adj(s, r) - s.radius) as i64),
{
    lemma_inter_bounds(s, r);
    let rr = (s.radius as int) * (s.radius as int);
    let r2 = inter_r2(s);
    assert(rr >= 0 && rr == (s.radius as int) * (s.radius as int)) by (nonlinear_arith)
        requires
            s.radius > 0 && rr == (s.radius as int) * (s.radius as int),
    ;
    assert(r2 == rr / (SCALE as int));
    assert(r2 * (SCALE as int) == rr) by {
        vstd::arithmetic::div_mod::lemma_fundamental_div_mod(rr, SCALE as int);
    }
    let arg = r2 - inter_d2(s, r);
    assert(arg == r2);
    assert(inter_thc(s, r) == sqrt_nat((r2 * (SCALE as int)) as nat));
    assert(inter_thc(s, r) == sqrt_nat((rr) as nat));
    assert((s.radius as nat) * (s.radius as nat) == rr as nat) by (nonlinear_arith)
        requires
            s.radius > 0 && rr == (s.radius as int) * (s.radius as int),
    ;
    lemma_sqrt_square(s.radius as nat);
    assert(inter_thc(s, r) == s.radius);

    // The origin is outside and the projection non-negative, so the near
    // root is non-negative: adj * adj rescales to at least r2 + 1.
    let adj = inter_adj(s, r);
    let adj2 = fx_mul_spec(adj, adj);
    assert(adj2 == inter_ll(s, r));
    assert(adj2 >= r2 + 1);
    crate::fixed::lemma_div_trunc_mul_le(adj * adj, SCALE as int);
    assert(adj2 * (SCALE as int) <= adj * adj);
    assert((r2 + 1) * (SCALE as int) == r2 * (SCALE as int) + (SCALE as int)) by (nonlinear_arith);
    assert(adj2 * (SCALE as int) >= (r2 + 1) * (SCALE as int)) by (nonlinear_arith)
        requires
            adj2 >= r2 + 1 && SCALE == 1000,
    ;
    assert(adj * adj > rr);
    assert(adj > s.radius) by (nonlinear_arith)
        requires
            adj >= 0 && s.radius > 0 && adj * adj > (s.radius as int) * (s.radius as int),
    ;
    assert(inter_t0(s, r) >= 0);
}

/// A ray cast from strictly inside the sphere always hits at a
/// non-negative distance: the far root, never the negative near root.
pub proof fn lemma_inside_hits_forward(s: Sphere, r: Ray)
    requires
        in_range(s.pos, POS_MAX as int),
        0 < s.radius <= POS_MAX,
        ray_valid(r),
        inter_ll(s, r) < inter_r2(s),
    ensures
        intersection_spec(s, r) is Some,
        inter_t0(s, r) <= 0,
        inter_t1(s, r) >= 0,
        intersection_spec(s, r) matches Some(t) ==> t >= 0,
        inter_t0(s, r) < 0 ==> intersection_spec(s, r) == Some(inter_t1(s, r) as i64),
{
    lemma_inter_bounds(s, r);
    let adj = inter_adj(s, r);
    let adj2 = fx_mul_spec(adj, adj);
    assert(inter_d2(s, r) <= inter_ll(s, r));
    assert(inter_d2(s, r) < inter_r2(s));
    let arg = inter_r2(s) - inter_d2(s, r);
    assert(arg >= adj2 + 1);
    let n = (arg * (SCALE as int)) as nat;
    lemma_sqrt_exists(n);
    let thc = inter_thc(s, r);
    assert(thc == sqrt_nat(n));
    assert((n as int) < (thc + 1) * (thc + 1));
    crate::fixed::lemma_div_trunc_close(adj * adj, SCALE as int);
    assert(adj * adj >= 0) by (nonlinear_arith);
    assert(adj2 * (SCALE as int) > adj * adj - (SCALE as int));
    assert((adj2 + 1) * (SCALE as int) == adj2 * (SCALE as int) + (SCALE as int))
        by (nonlinear_arith);
    assert(arg * (SCALE as int) >= (adj2 + 1) * (SCALE as int)) by (nonlinear_arith)
        requires
            arg >= adj2 + 1 && SCALE == 1000,
    ;
    assert((n as int) > adj * adj);
    let a = if adj >= 0 {
        adj
    } else {
        -adj
    };
    assert(a * a == adj * adj) by (nonlinear_arith)
        requires
            a == adj || a == -adj,
    ;
    assert((thc + 1) * (thc + 1) > a * a);
    assert(thc + 1 > a) by (nonlinear_arith)
        requires
            thc >= 0 && a >= 0 && (thc + 1) * (thc + 1) > a * a,
    ;
    assert(thc >= a);
    assert(inter_t1(s, r) >= 0);
    assert(inter_t0(s, r) <= 0);
}

impl Sphere {
    /// The nearest non-negative parametric distance at which `ray` meets
    /// this sphere, if any: the closed-form quadratic solution.
    pub fn intersection(&self, ray: &Ray) -> (res: Option<i64>)
        requires
            in_range(self.pos, POS_MAX as int),
            0 < self.radius <= POS_MAX,
            ray_valid(*ray),
        ensures
            res == intersection_spec(*self, *ray),
            res matches Some(t) ==> 0 <= t <= T_MAX,
    {
        proof {
            lemma_inter_bounds(*self, *ray);
        }
        let l = self.pos.sub(&ray.pos);
        let adj = l.dot(&ray.dir);
        let ll = l.dot(&l);
        let adj2 = fx_mul(adj, adj);
        let d2 = ll - adj2;
        let r2 = fx_mul(self.radius, self.radius);
        if d2 > r2 {
            return None;
        }
        let thc = fx_sqrt(r2 - d2);
        let t0 = adj - thc;
        let t1 = adj + thc;
        if t0 < 0 && t1 < 0 {
            return None;
        }
        if t0 >= 0 {
            Some(t0)
        } else {
            Some(t1)
        }
    }
}

} // verus!
