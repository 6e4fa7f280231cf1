//! Scenes: an ordered collection of spheres plus one point light, and the
//! nearest-hit query used for visibility and shadow tests alike.

use vstd::prelude::*;
use crate::material::{LightSrc, light_valid, COLOR_MAX, ALBEDO_MAX, INTENSITY_MAX, SurfaceType};
use crate::ray::{Ray, ray_valid};
use crate::sphere::{Sphere, sphere_valid, intersection_spec, T_MAX};
use crate::vec3::{in_range, POS_MAX};
use crate::fixed::SCALE;

verus! {

/// Scene construction rejects malformed geometry outright.
#[derive(Clone, Copy, PartialEq, Eq, Structural, Debug)]
pub struct InvalidGeometryError;

/// A hit: the parametric distance along the queried ray, and the index of
/// the hit sphere in the scene's collection.
#[derive(Clone, Copy, PartialEq, Eq, Structural, Debug)]
pub struct Intersection {
    pub distance: i64,
    pub object: usize,
}

impl Intersection {
    pub fn new(distance: i64, object: usize) -> (r: Intersection)
        ensures
            r == (Intersection { distance, object }),
    {
        Intersection { distance, object }
    }
}

/// The world to render: spheres in insertion order, and the light.
pub struct Scene {
    pub spheres: Vec<Sphere>,
    pub light: LightSrc,
}

/// Every sphere and the light are within the accepted bounds.
pub open spec fn scene_valid(sc: Scene) -> bool {
    &&& forall|i: int|
        0 <= i < sc.spheres@.len() ==> sphere_valid(#[trigger] sc.spheres@[i])
    &&& light_valid(sc.light)
}

/// The hit the scene's sphere `i` produces for `ray`.
pub open spec fn hit_of(sc: Scene, ray: Ray, i: int) -> Option<i64> {
    intersection_spec(sc.spheres@[i], ray)
}

/// `res` is what a nearest-hit query for `ray` must return: `None` exactly
/// when no sphere hits, else the first sphere achieving the minimum
/// distance among all hits.
pub open spec fn is_nearest_result(sc: Scene, ray: Ray, res: Option<Intersection>) -> bool {
    match res {
        None => forall|i: int| 0 <= i < sc.spheres@.len() ==> (#[trigger] hit_of(sc, ray, i)) is None,
        Some(h) => {
            &&& 0 <= h.object < sc.spheres@.len()
            &&& hit_of(sc, ray, h.object as int) == Some(h.distance)
            &&& forall|i: int|
                0 <= i < sc.spheres@.len() ==> ((#[trigger] hit_of(sc, ray, i)) matches Some(d)
                    ==> h.distance <= d)
            &&& forall|i: int|
                0 <= i < h.object ==> ((#[trigger] hit_of(sc, ray, i)) matches Some(d) ==> d
                    > h.distance)
        },
    }
}

/// The unique nearest-hit answer for `ray` (see `is_nearest_result`).
pub open spec fn nearest_hit_spec(sc: Scene, ray: Ray) -> Option<Intersection> {
    choose|res: Option<Intersection>| is_nearest_result(sc, ray, res)
}

/// At most one answer satisfies the nearest-hit characterization.
pub proof fn lemma_nearest_result_unique(
    sc: Scene,
    ray: Ray,
    r1: Option<Intersection>,
    r2: Option<Intersection>,
)
    requires
        is_nearest_result(sc, ray, r1),
        is_nearest_result(sc, ray, r2),
    ensures
        r1 == r2,
{
    match (r1, r2) {
        (None, None) => {
        },
        (None, Some(h)) => {
            assert(hit_of(sc, ray, h.object as int) is None);
        },
        (Some(h), None) => {
            assert(hit_of(sc, ray, h.object as int) is None);
        },
        (Some(h1), Some(h2)) => {
            assert(h1.distance <= h2.distance);
            assert(h2.distance <= h1.distance);
            if h1.object < h2.object {
                assert(hit_of(sc, ray, h1.object as int) matches Some(d) ==> d > h2.distance);
                assert(false);
            }
            if h2.object < h1.object {
                assert(hit_of(sc, ray, h2.object as int) matches Some(d) ==> d > h1.distance);
                assert(false);
            }
        },
    }
}

/// Whether a sphere lies within the accepted geometric and material bounds.
pub fn sphere_check(s: &Sphere) -> (r: bool)
    ensures
        r == sphere_valid(*s),
{
    let c = &s.material.coloration;
    let surface_ok = match s.material.surface {
        SurfaceType::Diffuse => true,
        SurfaceType::Reflective { reflectivity } => 0 <= reflectivity && reflectivity <= SCALE,
    };
    -POS_MAX <= s.pos.x && s.pos.x <= POS_MAX && -POS_MAX <= s.pos.y && s.pos.y <= POS_MAX
        && -POS_MAX <= s.pos.z && s.pos.z <= POS_MAX && 0 < s.radius && s.radius <= POS_MAX && 0
        <= c.red && c.red <= COLOR_MAX && 0 <= c.green && c.green <= COLOR_MAX && 0 <= c.blue
        && c.blue <= COLOR_MAX && 0 <= s.material.albedo && s.material.albedo <= ALBEDO_MAX
        && surface_ok
}

/// Whether a light lies within the accepted bounds.
pub fn light_check(l: &LightSrc) -> (r: bool)
    ensures
        r == light_valid(*l),
{
    -POS_MAX <= l.pos.x && l.pos.x <= POS_MAX && -POS_MAX <= l.pos.y && l.pos.y <= POS_MAX
        && -POS_MAX <= l.pos.z && l.pos.z <= POS_MAX && 0 <= l.intensity && l.intensity
        <= INTENSITY_MAX
}

impl Scene {
    /// Build a scene, rejecting invalid geometry (out-of-range coordinates,
    /// non-positive radii, out-of-range materials or light) up front.
    pub fn new(spheres: Vec<Sphere>, light: LightSrc) -> (res: Result<Scene, InvalidGeometryError>)
        ensures
            res matches Ok(sc) ==> {
                &&& sc.spheres@ == spheres@
                &&& sc.light == light
                &&& scene_valid(sc)
            },
            res is Err <==> !((forall|i: int|
                0 <= i < spheres@.len() ==> sphere_valid(#[trigger] spheres@[i]))
                && light_valid(light)),
    {
        if !light_check(&light) {
            return Err(InvalidGeometryError);
        }
        let mut i: usize = 0;
        while i < spheres.len()
            invariant
                0 <= i <= spheres@.len(),
                forall|j: int| 0 <= j < i ==> sphere_valid(#[trigger] spheres@[j]),
            decreases spheres@.len() - i,
        {
            if !sphere_check(&spheres[i]) {
                return Err(InvalidGeometryError);
            }
            i += 1;
        }
        Ok(Scene { spheres, light })
    }

    /// Evaluate the intersection of `ray` against every sphere and return
    /// the first hit of minimum distance, or `None` when nothing is hit
    /// (an empty or fully-missed scene: a normal outcome, not an error).
    pub fn nearest_hit(&self, ray: &Ray) -> (res: Option<Intersection>)
        requires
            scene_valid(*self),
            ray_valid(*ray),
        ensures
            is_nearest_result(*self, *ray, res),
            res == nearest_hit_spec(*self, *ray),
            res matches Some(h) ==> 0 <= h.distance <= T_MAX,
    {
        let mut best: Option<Intersection> = None;
        let mut i: usize = 0;
        while i < self.spheres.len()
            invariant
                scene_valid(*self),
                ray_valid(*ray),
                0 <= i <= self.spheres@.len(),
                match best {
                    None => forall|j: int|
                        0 <= j < i ==> (#[trigger] hit_of(*self, *ray, j)) is None,
                    Some(h) => {
                        &&& 0 <= h.object < i
                        &&& hit_of(*self, *ray, h.object as int) == Some(h.distance)
                        &&& 0 <= h.distance <= T_MAX
                        &&& forall|j: int|
                            0 <= j < i ==> ((#[trigger] hit_of(*self, *ray, j)) matches Some(d)
                                ==> h.distance <= d)
                        &&& forall|j: int|
                            0 <= j < h.object ==> ((#[trigger] hit_of(*self, *ray, j)) matches Some(
                            d) ==> d > h.distance)
                    },
                },
            decreases self.spheres@.len() - i,
        {
            let hit = self.spheres[i].intersection(ray);
            match hit {
                Some(d) => {
                    match best {
                        Some(h) => {
                            if d < h.distance {
                                best = Some(Intersection { distance: d, object: i });
                            }
                        },
                        None => {
                            best = Some(Intersection { distance: d, object: i });
                        },
                    }
                },
                None => {},
            }
            i += 1;
        }
        proof {
            assert(is_nearest_result(*self, *ray, best));
            lemma_nearest_result_unique(*self, *ray, best, nearest_hit_spec(*self, *ray));
        }
        best
    }
}

/// Nearest-hit selection does not depend on insertion order: for two
/// spheres placed in a scene in either order, the query returns a hit in
/// one order exactly when it does in the other, and the returned distances
/// are equal (the smaller of the two spheres' intersection distances).
pub proof fn lemma_nearest_hit_order_independent(
    a: Sphere,
    b: Sphere,
    ray: Ray,
    sc_ab: Scene,
    sc_ba: Scene,
    r_ab: Option<Intersection>,
    r_ba: Option<Intersection>,
)
    requires
        sc_ab.spheres@ =~= seq![a, b],
        sc_ba.spheres@ =~= seq![b, a],
        is_nearest_result(sc_ab, ray, r_ab),
        is_nearest_result(sc_ba, ray, r_ba),
    ensures
        r_ab is Some <==> r_ba is Some,
        (r_ab is Some && r_ba is Some) ==> r_ab->Some_0.distance == r_ba->Some_0.distance,
{
    assert(hit_of(sc_ab, ray, 0) == hit_of(sc_ba, ray, 1));
    assert(hit_of(sc_ab, ray, 1) == hit_of(sc_ba, ray, 0));
    match r_ab {
        None => {
            assert(hit_of(sc_ab, ray, 0) is None);
            assert(hit_of(sc_ab, ray, 1) is None);
            if r_ba is Some {
                let h = r_ba->Some_0;
                assert(hit_of(sc_ba, ray, h.object as int) == Some(h.distance));
                assert(h.object == 0 || h.object == 1);
            }
        },
        Some(h1) => {
            assert(hit_of(sc_ab, ray, h1.object as int) == Some(h1.distance));
            assert(h1.object == 0 || h1.object == 1);
            let j = if h1.object == 0 {
                1int
            } else {
                0int
            };
            assert(hit_of(sc_ba, ray, j) == Some(h1.distance));
            if r_ba is None {
                assert(hit_of(sc_ba, ray, j) is None);
            }
            let h2 = r_ba->Some_0;
            assert(hit_of(sc_ba, ray, h2.object as int) == Some(h2.distance));
            assert(h2.object == 0 || h2.object == 1);
            let k = if h2.object == 0 {
                1int
            } else {
                0int
            };
            assert(hit_of(sc_ab, ray, k) == Some(h2.distance));
            assert(h1.distance <= h2.distance);
            assert(h2.distance <= h1.distance);
        },
    }
}

} // verus!
