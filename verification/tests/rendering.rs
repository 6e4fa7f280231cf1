//! Shading, shadows and end-to-end rendered images.

use raytracer::material::{Color, LightSrc, Material, SurfaceType};
use raytracer::ray::Ray;
use raytracer::render::{clamp_channel, render, Framebuffer, OrthoCamera};
use raytracer::scene::Scene;
use raytracer::scenegen::random_scene;
use raytracer::shade::get_color;
use raytracer::sphere::Sphere;
use raytracer::vec3::Vector3;

const BG: (u8, u8, u8) = (20, 20, 20);

fn white_sphere() -> Sphere {
    Sphere {
        pos: Vector3::new(125_000, 75_000, 100_000),
        radius: 20_000,
        material: Material::new(
            Color::new(255_000, 255_000, 255_000),
            2000,
            SurfaceType::Diffuse,
        ),
    }
}

fn light() -> LightSrc {
    LightSrc::new(Vector3::new(125_000, -100_000, 100_000), 20_000)
}

fn camera() -> OrthoCamera {
    OrthoCamera {
        pos: Vector3::new(0, 0, 0),
        width: 256,
        height: 256,
        shadow_bias: 1000,
        max_recursion_depth: 5,
    }
}

/// A large sphere sitting between the white sphere's lit face and the
/// light, without blocking the camera's view of the lit pixels.
fn occluder() -> Sphere {
    Sphere {
        pos: Vector3::new(125_000, -20_000, 100_000),
        radius: 40_000,
        material: Material::new(Color::new(10_000, 10_000, 10_000), 2000, SurfaceType::Diffuse),
    }
}

fn primary_ray(x: i64, y: i64) -> Ray {
    Ray::new(Vector3::new(x * 1000, y * 1000, 0), Vector3::new(0, 0, 1000))
}

#[test]
fn lit_point_gets_positive_diffuse_contribution() {
    let sc = Scene::new(vec![white_sphere()], light()).unwrap();
    let ray = primary_ray(125, 60);
    let hit = sc.nearest_hit(&ray).unwrap();
    let c = get_color(&sc, &ray, &hit, 1000).unwrap();
    assert!(c.red > 0 && c.green > 0 && c.blue > 0);
}

#[test]
fn occluded_point_is_exactly_black() {
    let sc = Scene::new(vec![white_sphere(), occluder()], light()).unwrap();
    let ray = primary_ray(125, 60);
    let hit = sc.nearest_hit(&ray).unwrap();
    assert_eq!(hit.object, 0);
    let c = get_color(&sc, &ray, &hit, 1000).unwrap();
    assert_eq!((c.red, c.green, c.blue), (0, 0, 0));
}

#[test]
fn back_facing_point_gets_no_light() {
    // The far side of the sphere from the light: cosine clamps to zero.
    let sc = Scene::new(vec![white_sphere()], light()).unwrap();
    let ray = primary_ray(125, 90);
    let hit = sc.nearest_hit(&ray).unwrap();
    let c = get_color(&sc, &ray, &hit, 1000).unwrap();
    assert_eq!((c.red, c.green, c.blue), (0, 0, 0));
}

#[test]
fn rendered_scene_lights_the_disk_and_leaves_background() {
    let sc = Scene::new(vec![white_sphere()], light()).unwrap();
    let fb = render(&sc, &camera());
    assert_eq!(fb.width, 256);
    assert_eq!(fb.height, 256);

    // pixels well outside the projected disk hold the background exactly
    assert_eq!(fb.get_pixel(0, 0), BG);
    assert_eq!(fb.get_pixel(255, 255), BG);
    assert_eq!(fb.get_pixel(125, 30), BG);
    assert_eq!(fb.get_pixel(180, 75), BG);

    // pixels in the lit part of the disk are not background
    assert_ne!(fb.get_pixel(125, 60), BG);
    assert_ne!(fb.get_pixel(120, 62), BG);
    let (r, g, b) = fb.get_pixel(125, 60);
    assert!(r > 20 && g > 20 && b > 20);
}

#[test]
fn rendered_occluder_darkens_the_lit_hemisphere() {
    let sc_lit = Scene::new(vec![white_sphere()], light()).unwrap();
    let fb_lit = render(&sc_lit, &camera());
    let sc_dark = Scene::new(vec![white_sphere(), occluder()], light()).unwrap();
    let fb_dark = render(&sc_dark, &camera());

    // previously lit pixels of the first sphere fall to zero contribution
    let lit = fb_lit.get_pixel(125, 60);
    let dark = fb_dark.get_pixel(125, 60);
    assert!(lit.0 > 20);
    assert_eq!(dark, (0, 0, 0));

    // pixels outside both disks still hold the background
    assert_eq!(fb_dark.get_pixel(0, 0), BG);
}

#[test]
fn clamp_channel_maps_fixed_point_to_bytes() {
    assert_eq!(clamp_channel(-5), 0);
    assert_eq!(clamp_channel(0), 0);
    assert_eq!(clamp_channel(999), 0);
    assert_eq!(clamp_channel(1500), 1);
    assert_eq!(clamp_channel(255_000), 255);
    assert_eq!(clamp_channel(255_001), 255);
    assert_eq!(clamp_channel(1_000_000_000), 255);
}

#[test]
fn framebuffer_set_pixel_touches_one_pixel() {
    let mut fb = Framebuffer::new(4, 3);
    assert_eq!(fb.get_pixel(2, 1), (0, 0, 0));
    fb.set_pixel(2, 1, 7, 8, 9);
    assert_eq!(fb.get_pixel(2, 1), (7, 8, 9));
    assert_eq!(fb.get_pixel(1, 1), (0, 0, 0));
    assert_eq!(fb.get_pixel(2, 2), (0, 0, 0));
    assert_eq!(fb.get_pixel(3, 0), (0, 0, 0));
}

#[test]
fn random_scene_is_valid_and_sized() {
    let sc = random_scene(15, light());
    assert_eq!(sc.spheres.len(), 15);
    assert_eq!(sc.light, light());
    for s in sc.spheres.iter() {
        assert!(s.pos.x >= 0 && s.pos.x < 250_000);
        assert!(s.pos.y >= 0 && s.pos.y < 250_000);
        assert_eq!(s.pos.z, 100_000);
        assert!(s.radius > 0 && s.radius <= 40_000);
        assert_eq!(s.material.surface, SurfaceType::Reflective { reflectivity: 1000 });
    }
}

#[test]
fn random_scene_renders_without_corrupting_dimensions() {
    let sc = random_scene(15, light());
    let cam = camera();
    let fb = render(&sc, &cam);
    assert_eq!(fb.width, 256);
    assert_eq!(fb.height, 256);
    assert_eq!(fb.pixels.len(), 256 * 256 * 3);
}
