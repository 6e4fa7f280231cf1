//! 3D vector algebra over fixed-point scalars.

use vstd::prelude::*;
use crate::fixed::{
    SCALE, div_trunc, fx_mul, fx_mul_spec, fx_div, fx_div_spec, sqrt_nat, isqrt, lemma_sqrt_exists,
    lemma_sqrt_unique, lemma_sqrt_monotone, lemma_sqrt_square, lemma_div_trunc_le,
};

verus! {

/// Largest component magnitude accepted by the dot product.
pub const DOT_ARG_MAX: i64 = 16_000_000_000;

/// Largest component magnitude accepted by `length` and `normalize`.
pub const VEC_MAX: i64 = 1_000_000_000_000;

/// Largest coordinate magnitude accepted for scene geometry: sphere
/// centers, radii, the light and the camera.
pub const POS_MAX: i64 = 10_000_000;

/// Normalizing a vector of length zero is an error.
#[derive(Clone, Copy, PartialEq, Eq, Structural, Debug)]
pub struct DegenerateVectorError;

/// A point or direction in space; each component is a fixed-point scalar.
#[derive(Clone, Copy, PartialEq, Eq, Structural, Debug)]
pub struct Vector3 {
    pub x: i64,
    pub y: i64,
    pub z: i64,
}

/// Every component of `v` has magnitude at most `b`.
pub open spec fn in_range(v: Vector3, b: int) -> bool {
    &&& -b <= v.x <= b
    &&& -b <= v.y <= b
    &&& -b <= v.z <= b
}

/// The squared Euclidean norm of the raw components.
pub open spec fn norm2(v: Vector3) -> int {
    v.x * v.x + v.y * v.y + v.z * v.z
}

/// The fixed-point length of `v`: since components carry one factor of
/// `SCALE`, the stored length is the integer square root of `norm2`.
pub open spec fn length_spec(v: Vector3) -> int {
    sqrt_nat(norm2(v) as nat) as int
}

/// The fixed-point dot product.
pub open spec fn dot_spec(u: Vector3, v: Vector3) -> int {
    div_trunc(u.x * v.x + u.y * v.y + u.z * v.z, SCALE as int)
}

pub open spec fn add_spec(u: Vector3, v: Vector3) -> Vector3 {
    Vector3 { x: (u.x + v.x) as i64, y: (u.y + v.y) as i64, z: (u.z + v.z) as i64 }
}

pub open spec fn sub_spec(u: Vector3, v: Vector3) -> Vector3 {
    Vector3 { x: (u.x - v.x) as i64, y: (u.y - v.y) as i64, z: (u.z - v.z) as i64 }
}

pub open spec fn neg_spec(v: Vector3) -> Vector3 {
    Vector3 { x: (-v.x) as i64, y: (-v.y) as i64, z: (-v.z) as i64 }
}

pub open spec fn scale_spec(v: Vector3, t: int) -> Vector3 {
    Vector3 {
        x: fx_mul_spec(v.x as int, t) as i64,
        y: fx_mul_spec(v.y as int, t) as i64,
        z: fx_mul_spec(v.z as int, t) as i64,
    }
}

/// `v` scaled to unit length (meaningful whenever `length_spec(v) != 0`).
pub open spec fn unit_of(v: Vector3) -> Vector3 {
    Vector3 {
        x: fx_div_spec(v.x as int, length_spec(v)) as i64,
        y: fx_div_spec(v.y as int, length_spec(v)) as i64,
        z: fx_div_spec(v.z as int, length_spec(v)) as i64,
    }
}

/// A normalized vector has unit-range components.
pub proof fn lemma_unit_of_in_range(v: Vector3)
    requires
        in_range(v, VEC_MAX as int),
        length_spec(v) != 0,
    ensures
        in_range(unit_of(v), SCALE as int),
{
    lemma_norm2_bound(v);
    lemma_sqrt_exists(norm2(v) as nat);
    lemma_component_le_length(v);
    lemma_norm_div_bounds(v.x as int, length_spec(v));
    lemma_norm_div_bounds(v.y as int, length_spec(v));
    lemma_norm_div_bounds(v.z as int, length_spec(v));
}

impl Vector3 {
    pub fn new(x: i64, y: i64, z: i64) -> (r: Vector3)
        ensures
            r == (Vector3 { x, y, z }),
    {
        Vector3 { x, y, z }
    }

    /// Component-wise sum.
    pub fn add(&self, o: &Vector3) -> (r: Vector3)
        requires
            i64::MIN <= self.x + o.x <= i64::MAX,
            i64::MIN <= self.y + o.y <= i64::MAX,
            i64::MIN <= self.z + o.z <= i64::MAX,
        ensures
            r == add_spec(*self, *o),
    {
        Vector3 { x: self.x + o.x, y: self.y + o.y, z: self.z + o.z }
    }

    /// Component-wise difference.
    pub fn sub(&self, o: &Vector3) -> (r: Vector3)
        requires
            i64::MIN <= self.x - o.x <= i64::MAX,
            i64::MIN <= self.y - o.y <= i64::MAX,
            i64::MIN <= self.z - o.z <= i64::MAX,
        ensures
            r == sub_spec(*self, *o),
    {
        Vector3 { x: self.x - o.x, y: self.y - o.y, z: self.z - o.z }
    }

    /// Component-wise negation.
    pub fn neg(&self) -> (r: Vector3)
        requires
            self.x > i64::MIN,
            self.y > i64::MIN,
            self.z > i64::MIN,
        ensures
            r == neg_spec(*self),
    {
        Vector3 { x: -self.x, y: -self.y, z: -self.z }
    }

    /// Multiplication by a scalar.
    pub fn scale(&self, t: i64) -> (r: Vector3)
        requires
            -(i64::MAX as int) * (SCALE as int) <= self.x * t <= (i64::MAX as int) * (SCALE as int),
            -(i64::MAX as int) * (SCALE as int) <= self.y * t <= (i64::MAX as int) * (SCALE as int),
            -(i64::MAX as int) * (SCALE as int) <= self.z * t <= (i64::MAX as int) * (SCALE as int),
        ensures
            r == scale_spec(*self, t as int),
    {
        Vector3 { x: fx_mul(self.x, t), y: fx_mul(self.y, t), z: fx_mul(self.z, t) }
    }

    /// Fixed-point dot product.
    pub fn dot(&self, o: &Vector3) -> (r: i64)
        requires
            in_range(*self, DOT_ARG_MAX as int),
            in_range(*o, DOT_ARG_MAX as int),
        ensures
            r == dot_spec(*self, *o),
    {
        proof {
            lemma_dot_sum_bound(*self, *o);
        }
        let p: i128 = (self.x as i128) * (o.x as i128) + (self.y as i128) * (o.y as i128) + (
        self.z as i128) * (o.z as i128);
        proof {
            lemma_div_trunc_le(p as int, SCALE as int, i64::MAX as int);
        }
        if p >= 0 {
            let q: u128 = (p as u128) / (SCALE as u128);
            q as i64
        } else {
            let q: u128 = ((-p) as u128) / (SCALE as u128);
            -(q as i64)
        }
    }

    /// Fixed-point Euclidean length.
    pub fn length(&self) -> (r: i64)
        requires
            in_range(*self, VEC_MAX as int),
        ensures
            r == length_spec(*self),
            r >= 0,
            r == 0 <==> norm2(*self) == 0,
    {
        proof {
            lemma_norm2_bound(*self);
        }
        let s: i128 = (self.x as i128) * (self.x as i128) + (self.y as i128) * (self.y as i128)
            + (self.z as i128) * (self.z as i128);
        let n: u128 = s as u128;
        let r = isqrt(n);
        proof {
            lemma_sqrt_exists(n as nat);
            let q = sqrt_nat(n as nat);
            assert(q * q <= n as nat);
            if q >= 0x8000_0000_0000_0000 {
                assert(q * q >= 0x8000_0000_0000_0000int * 0x8000_0000_0000_0000int)
                    by (nonlinear_arith)
                    requires
                        q >= 0x8000_0000_0000_0000,
                ;
                assert(false);
            }
            if norm2(*self) == 0 {
                lemma_sqrt_square(0);
                lemma_sqrt_unique(0, q);
            }
            if q == 0 && norm2(*self) > 0 {
                assert((n as nat) < (q + 1) * (q + 1));
                assert((q + 1) * (q + 1) == 1) by (nonlinear_arith)
                    requires
                        q == 0nat,
                ;
                assert(false);
            }
        }
        r as i64
    }

    /// Scale `self` to unit length: each component becomes
    /// `component * SCALE / length`. A zero-length vector is degenerate.
    pub fn normalize(&self) -> (r: Result<Vector3, DegenerateVectorError>)
        requires
            in_range(*self, VEC_MAX as int),
        ensures
            r is Err <==> length_spec(*self) == 0,
            r matches Ok(u) ==> u == unit_of(*self) && in_range(u, SCALE as int),
    {
        let len = self.length();
        if len == 0 {
            Err(DegenerateVectorError)
        } else {
            proof {
                lemma_component_le_length(*self);
                lemma_norm_div_bounds(self.x as int, len as int);
                lemma_norm_div_bounds(self.y as int, len as int);
                lemma_norm_div_bounds(self.z as int, len as int);
            }
            Ok(
                Vector3 {
                    x: fx_div(self.x, len),
                    y: fx_div(self.y, len),
                    z: fx_div(self.z, len),
                },
            )
        }
    }
}

/// The raw dot-product sum of two in-range vectors fits comfortably in `i64`
/// after rescaling.
proof fn lemma_dot_sum_bound(u: Vector3, v: Vector3)
    requires
        in_range(u, DOT_ARG_MAX as int),
        in_range(v, DOT_ARG_MAX as int),
    ensures
        -(i64::MAX as int) * (SCALE as int) <= u.x * v.x + u.y * v.y + u.z * v.z <= (
        i64::MAX as int) * (SCALE as int),
        -(DOT_ARG_MAX as int) * (DOT_ARG_MAX as int) <= u.x * v.x <= (DOT_ARG_MAX as int) * (
        DOT_ARG_MAX as int),
        -(DOT_ARG_MAX as int) * (DOT_ARG_MAX as int) <= u.y * v.y <= (DOT_ARG_MAX as int) * (
        DOT_ARG_MAX as int),
        -(DOT_ARG_MAX as int) * (DOT_ARG_MAX as int) <= u.z * v.z <= (DOT_ARG_MAX as int) * (
        DOT_ARG_MAX as int),
{
    assert(-(DOT_ARG_MAX as int) * (DOT_ARG_MAX as int) <= u.x * v.x <= (DOT_ARG_MAX as int) * (
    DOT_ARG_MAX as int)) by (nonlinear_arith)
        requires
            -DOT_ARG_MAX <= u.x <= DOT_ARG_MAX && -DOT_ARG_MAX <= v.x <= DOT_ARG_MAX,
    ;
    assert(-(DOT_ARG_MAX as int) * (DOT_ARG_MAX as int) <= u.y * v.y <= (DOT_ARG_MAX as int) * (
    DOT_ARG_MAX as int)) by (nonlinear_arith)
        requires
            -DOT_ARG_MAX <= u.y <= DOT_ARG_MAX && -DOT_ARG_MAX <= v.y <= DOT_ARG_MAX,
    ;
    assert(-(DOT_ARG_MAX as int) * (DOT_ARG_MAX as int) <= u.z * v.z <= (DOT_ARG_MAX as int) * (
    DOT_ARG_MAX as int)) by (nonlinear_arith)
        requires
            -DOT_ARG_MAX <= u.z <= DOT_ARG_MAX && -DOT_ARG_MAX <= v.z <= DOT_ARG_MAX,
    ;
}

/// The squared norm of an in-range vector is non-negative and fits in `i128`.
proof fn lemma_norm2_bound(v: Vector3)
    requires
        in_range(v, VEC_MAX as int),
    ensures
        0 <= norm2(v) <= 3 * (VEC_MAX as int) * (VEC_MAX as int),
        0 <= v.x * v.x <= (VEC_MAX as int) * (VEC_MAX as int),
        0 <= v.y * v.y <= (VEC_MAX as int) * (VEC_MAX as int),
        0 <= v.z * v.z <= (VEC_MAX as int) * (VEC_MAX as int),
{
    assert(0 <= v.x * v.x <= (VEC_MAX as int) * (VEC_MAX as int)) by (nonlinear_arith)
        requires
            -VEC_MAX <= v.x <= VEC_MAX,
    ;
    assert(0 <= v.y * v.y <= (VEC_MAX as int) * (VEC_MAX as int)) by (nonlinear_arith)
        requires
            -VEC_MAX <= v.y <= VEC_MAX,
    ;
    assert(0 <= v.z * v.z <= (VEC_MAX as int) * (VEC_MAX as int)) by (nonlinear_arith)
        requires
            -VEC_MAX <= v.z <= VEC_MAX,
    ;
}

/// No component of a vector exceeds the vector's length.
proof fn lemma_component_le_length(v: Vector3)
    requires
        in_range(v, VEC_MAX as int),
    ensures
        -length_spec(v) <= v.x <= length_spec(v),
        -length_spec(v) <= v.y <= length_spec(v),
        -length_spec(v) <= v.z <= length_spec(v),
{
    lemma_norm2_bound(v);
    lemma_component_le_length_one(v.x as int, norm2(v));
    lemma_component_le_length_one(v.y as int, norm2(v));
    lemma_component_le_length_one(v.z as int, norm2(v));
}

proof fn lemma_component_le_length_one(c: int, n2: int)
    requires
        0 <= c * c <= n2,
    ensures
        -(sqrt_nat(n2 as nat) as int) <= c <= sqrt_nat(n2 as nat) as int,
{
    let a = if c >= 0 {
        c
    } else {
        -c
    };
    assert(a * a == c * c) by (nonlinear_arith)
        requires
            a == c || a == -c,
    ;
    lemma_sqrt_square(a as nat);
    lemma_sqrt_monotone((a * a) as nat, n2 as nat);
}

/// Dividing a component by a length at least as large yields a unit-range
/// fixed-point scalar, and the division does not overflow.
proof fn lemma_norm_div_bounds(c: int, len: int)
    requires
        len > 0,
        -len <= c <= len,
    ensures
        -(i64::MAX as int) * len <= c * (SCALE as int) <= (i64::MAX as int) * len,
        -(SCALE as int) <= fx_div_spec(c, len) <= SCALE as int,
{
    assert(-(SCALE as int) * len <= c * (SCALE as int) <= (SCALE as int) * len)
        by (nonlinear_arith)
        requires
            -len <= c <= len && SCALE == 1000,
    ;
    assert((SCALE as int) * len <= (i64::MAX as int) * len) by (nonlinear_arith)
        requires
            len > 0 && SCALE == 1000,
    ;
    assert(-(i64::MAX as int) * len <= -(SCALE as int) * len) by (nonlinear_arith)
        requires
            len > 0 && SCALE == 1000,
    ;
    lemma_div_trunc_le(c * (SCALE as int), len, SCALE as int);
}

} // verus!
