//! Fixed-point arithmetic and vector algebra.

use raytracer::fixed::{fx_div, fx_mul, fx_sqrt, isqrt};
use raytracer::vec3::{DegenerateVectorError, Vector3};

#[test]
fn isqrt_exact_values() {
    assert_eq!(isqrt(0), 0);
    assert_eq!(isqrt(1), 1);
    assert_eq!(isqrt(2), 1);
    assert_eq!(isqrt(3), 1);
    assert_eq!(isqrt(4), 2);
    assert_eq!(isqrt(999_999), 999);
    assert_eq!(isqrt(1_000_000), 1000);
    assert_eq!(isqrt(u64::MAX as u128), 4_294_967_295);
}

#[test]
fn fx_mul_rescales_and_truncates() {
    // 1.5 * 2.0 == 3.0
    assert_eq!(fx_mul(1500, 2000), 3000);
    // truncation toward zero on both signs
    assert_eq!(fx_mul(1, 1), 0);
    assert_eq!(fx_mul(-1999, 1), -1);
    assert_eq!(fx_mul(-1500, 2000), -3000);
    assert_eq!(fx_mul(999, 1), 0);
}

#[test]
fn fx_div_rescales() {
    // 1.0 / 3.0 == 0.333
    assert_eq!(fx_div(1000, 3000), 333);
    // -1.0 / 3.0 truncates toward zero
    assert_eq!(fx_div(-1000, 3000), -333);
}

#[test]
fn fx_sqrt_exact_values() {
    // sqrt(4.0) == 2.0
    assert_eq!(fx_sqrt(4000), 2000);
    // sqrt(2.0) == 1.414...
    assert_eq!(fx_sqrt(2000), 1414);
    assert_eq!(fx_sqrt(0), 0);
}

#[test]
fn vector_componentwise_ops() {
    let a = Vector3::new(1000, 2000, 3000);
    let b = Vector3::new(500, -500, 1000);
    assert_eq!(a.add(&b), Vector3::new(1500, 1500, 4000));
    assert_eq!(a.sub(&b), Vector3::new(500, 2500, 2000));
    assert_eq!(b.neg(), Vector3::new(-500, 500, -1000));
    // 2.0 * (1, 2, 3) == (2, 4, 6)
    assert_eq!(a.scale(2000), Vector3::new(2000, 4000, 6000));
}

#[test]
fn dot_and_length() {
    let x = Vector3::new(1000, 0, 0);
    assert_eq!(x.dot(&x), 1000);
    let v = Vector3::new(3000, 4000, 0);
    assert_eq!(v.length(), 5000);
    assert_eq!(Vector3::new(0, 0, 0).length(), 0);
}

#[test]
fn normalize_unit_components() {
    let v = Vector3::new(3000, 4000, 0);
    let u = v.normalize().unwrap();
    assert_eq!(u, Vector3::new(600, 800, 0));
}

#[test]
fn normalize_zero_vector_is_degenerate() {
    let z = Vector3::new(0, 0, 0);
    assert_eq!(z.normalize(), Err(DegenerateVectorError));
}
