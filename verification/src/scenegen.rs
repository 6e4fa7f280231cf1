//! Random scene population: bounded random spheres, in the style of the
//! sample drivers, built on one random-word source.

use vstd::prelude::*;
use crate::fixed::SCALE;
use crate::material::{Color, LightSrc, Material, SurfaceType, light_valid};
use crate::scene::{Scene, scene_valid};
use crate::sphere::{Sphere, sphere_valid};
use crate::vec3::Vector3;

verus! {

/// Relies on rand::random: one uniformly distributed machine word.
/// Nothing is promised of the value; callers must hold for every outcome.
#[verifier::external_body]
fn random_u64() -> u64 {
    rand::random::<u64>()
}

/// Map a random word into `[0, bound)`.
fn bounded(r: u64, bound: u64) -> (v: u64)
    requires
        bound > 0,
    ensures
        v < bound,
{
    r % bound
}

/// One randomly placed reflective sphere, as the sample scenes draw them:
/// `x` and `y` anywhere in `[0, 250)`, depth fixed at `100`, radius in
/// `(0, 40]`, channels in `[0, 100)`. Whatever the random source returns,
/// the sphere is valid scene geometry.
pub fn random_sphere() -> (s: Sphere)
    ensures
        sphere_valid(s),
        0 <= s.pos.x < 250 * SCALE,
        0 <= s.pos.y < 250 * SCALE,
        s.pos.z == 100 * SCALE,
        0 < s.radius <= 40 * SCALE,
        s.material.surface == (SurfaceType::Reflective { reflectivity: SCALE }),
{
    let x = bounded(random_u64(), 250 * SCALE as u64) as i64;
    let y = bounded(random_u64(), 250 * SCALE as u64) as i64;
    let radius = (bounded(random_u64(), 40 * SCALE as u64) + 1) as i64;
    let red = bounded(random_u64(), 100 * SCALE as u64) as i64;
    let green = bounded(random_u64(), 100 * SCALE as u64) as i64;
    let blue = bounded(random_u64(), 100 * SCALE as u64) as i64;
    Sphere {
        pos: Vector3::new(x, y, 100 * SCALE),
        radius,
        material: Material::new(
            Color::new(red, green, blue),
            2 * SCALE,
            SurfaceType::Reflective { reflectivity: SCALE },
        ),
    }
}

/// A frozen random scene: `n` random spheres and the given light. The
/// randomness is consumed here, before any rendering; the scene itself is
/// then immutable and every sphere is valid.
pub fn random_scene(n: usize, light: LightSrc) -> (sc: Scene)
    requires
        light_valid(light),
    ensures
        scene_valid(sc),
        sc.spheres@.len() == n,
        sc.light == light,
{
    let mut spheres: Vec<Sphere> = Vec::new();
    let mut i: usize = 0;
    while i < n
        invariant
            0 <= i <= n,
            spheres@.len() == i,
            forall|j: int| 0 <= j < i ==> sphere_valid(#[trigger] spheres@[j]),
        decreases n - i,
    {
        spheres.push(random_sphere());
        i += 1;
    }
    Scene { spheres, light }
}

} // verus!
