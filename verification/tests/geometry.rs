//! Rays, ray-sphere intersection and nearest-hit selection.

use raytracer::material::{Color, LightSrc, Material, SurfaceType};
use raytracer::ray::Ray;
use raytracer::scene::{Intersection, Scene};
use raytracer::sphere::Sphere;
use raytracer::vec3::Vector3;

fn plain_material() -> Material {
    Material::new(Color::new(120_000, 0, 0), 2000, SurfaceType::Diffuse)
}

fn sphere_at(x: i64, y: i64, z: i64, radius: i64) -> Sphere {
    Sphere { pos: Vector3::new(x, y, z), radius, material: plain_material() }
}

fn light() -> LightSrc {
    LightSrc::new(Vector3::new(125_000, -100_000, 100_000), 20_000)
}

#[test]
fn ray_at_zero_is_origin() {
    let ray = Ray::new(Vector3::new(1000, 2000, 3000), Vector3::new(0, 0, 1000));
    assert_eq!(ray.at(0), ray.pos);
}

#[test]
fn ray_at_advances_linearly() {
    let ray = Ray::new(Vector3::new(1000, 2000, 3000), Vector3::new(0, 0, 1000));
    assert_eq!(ray.at(5000), Vector3::new(1000, 2000, 8000));
    assert_eq!(ray.at(2000), Vector3::new(1000, 2000, 5000));
    // at(2000 + 3000) - at(0) == (at(2000) - at(0)) + (at(3000) - at(0))
    let d5 = ray.at(5000).sub(&ray.at(0));
    let d2 = ray.at(2000).sub(&ray.at(0));
    let d3 = ray.at(3000).sub(&ray.at(0));
    assert_eq!(d5, d2.add(&d3));
}

#[test]
fn center_line_hit_returns_near_root() {
    // Sphere dead ahead: roots are adj - radius and adj + radius.
    let s = sphere_at(0, 0, 100_000, 20_000);
    let ray = Ray::new(Vector3::new(0, 0, 0), Vector3::new(0, 0, 1000));
    assert_eq!(s.intersection(&ray), Some(80_000));
}

#[test]
fn sphere_behind_origin_misses() {
    let s = sphere_at(0, 0, 100_000, 20_000);
    let ray = Ray::new(Vector3::new(0, 0, 0), Vector3::new(0, 0, -1000));
    assert_eq!(s.intersection(&ray), None);
}

#[test]
fn ray_line_passing_outside_misses() {
    let s = sphere_at(0, 0, 100_000, 20_000);
    let ray = Ray::new(Vector3::new(100_000, 0, 0), Vector3::new(0, 0, 1000));
    assert_eq!(s.intersection(&ray), None);
}

#[test]
fn origin_inside_returns_far_root() {
    let s = sphere_at(0, 0, 100_000, 20_000);
    let ray = Ray::new(Vector3::new(0, 0, 95_000), Vector3::new(0, 0, 1000));
    // near root is -15.0, far root is 25.0: the non-negative one comes back
    assert_eq!(s.intersection(&ray), Some(25_000));
}

#[test]
fn nearest_hit_picks_smaller_distance_either_order() {
    let far = sphere_at(0, 0, 100_000, 20_000);
    let near = sphere_at(0, 0, 50_000, 10_000);
    let ray = Ray::new(Vector3::new(0, 0, 0), Vector3::new(0, 0, 1000));

    let sc1 = Scene::new(vec![far, near], light()).unwrap();
    let h1 = sc1.nearest_hit(&ray).unwrap();
    assert_eq!(h1, Intersection::new(40_000, 1));

    let sc2 = Scene::new(vec![near, far], light()).unwrap();
    let h2 = sc2.nearest_hit(&ray).unwrap();
    assert_eq!(h2, Intersection::new(40_000, 0));

    assert_eq!(h1.distance, h2.distance);
}

#[test]
fn empty_scene_has_no_hit() {
    let sc = Scene::new(Vec::new(), light()).unwrap();
    let ray = Ray::new(Vector3::new(0, 0, 0), Vector3::new(0, 0, 1000));
    assert!(sc.nearest_hit(&ray).is_none());
}

#[test]
fn scene_rejects_nonpositive_radius() {
    let bad = sphere_at(0, 0, 100_000, 0);
    assert!(Scene::new(vec![bad], light()).is_err());
}

#[test]
fn scene_rejects_out_of_range_center() {
    let bad = sphere_at(20_000_000, 0, 0, 1000);
    assert!(Scene::new(vec![bad], light()).is_err());
}

#[test]
fn scene_rejects_negative_intensity() {
    let l = LightSrc::new(Vector3::new(0, 0, 0), -1);
    assert!(Scene::new(Vec::new(), l).is_err());
}

#[test]
fn scene_rejects_negative_color_channel() {
    let mut s = sphere_at(0, 0, 100_000, 20_000);
    s.material = Material::new(Color::new(-1, 0, 0), 2000, SurfaceType::Diffuse);
    assert!(Scene::new(vec![s], light()).is_err());
}
