//! A minimal offline ray tracer over fixed-point arithmetic.
//!
//! Scenes hold spheres and a single point light; an orthographic camera
//! casts one primary ray per pixel, the nearest intersected sphere is
//! shaded with a Lambertian diffuse term attenuated by a hard shadow
//! test, and the resulting color is written into a framebuffer.
//!
//! All scalar quantities are fixed-point numbers: an `i64` holding the
//! underlying value times [`fixed::SCALE`].

pub mod fixed;
pub mod material;
pub mod ray;
pub mod render;
pub mod scene;
pub mod scenegen;
pub mod shade;
pub mod sphere;
pub mod vec3;
