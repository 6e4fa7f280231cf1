//! Surface colors, materials and the point light.

use vstd::prelude::*;
use crate::fixed::SCALE;
use crate::vec3::{Vector3, in_range, POS_MAX};

verus! {

/// Largest accepted color channel value.
pub const COLOR_MAX: i64 = 1_000_000_000;

/// Largest accepted light intensity.
pub const INTENSITY_MAX: i64 = 1_000_000_000;

/// Largest accepted albedo multiplier.
pub const ALBEDO_MAX: i64 = 1_000_000;

/// An RGB color; channels are non-negative fixed-point scalars, not
/// clamped to one (display mapping is the caller's concern).
#[derive(Clone, Copy, PartialEq, Eq, Structural, Debug)]
pub struct Color {
    pub red: i64,
    pub green: i64,
    pub blue: i64,
}

impl Color {
    pub fn new(red: i64, green: i64, blue: i64) -> (c: Color)
        ensures
            c == (Color { red, green, blue }),
    {
        Color { red, green, blue }
    }
}

/// How a surface reflects: plain diffuse, or mirror-like with a
/// reflectivity weight in `[0, SCALE]`.
#[derive(Clone, Copy, PartialEq, Eq, Structural, Debug)]
pub enum SurfaceType {
    Diffuse,
    Reflective { reflectivity: i64 },
}

/// A surface's color, albedo multiplier and reflection behavior.
#[derive(Clone, Copy, PartialEq, Eq, Structural, Debug)]
pub struct Material {
    pub coloration: Color,
    pub albedo: i64,
    pub surface: SurfaceType,
}

impl Material {
    pub fn new(coloration: Color, albedo: i64, surface: SurfaceType) -> (m: Material)
        ensures
            m == (Material { coloration, albedo, surface }),
    {
        Material { coloration, albedo, surface }
    }
}

/// The single point light of a scene.
#[derive(Clone, Copy, PartialEq, Eq, Structural, Debug)]
pub struct LightSrc {
    pub pos: Vector3,
    pub intensity: i64,
}

impl LightSrc {
    pub fn new(pos: Vector3, intensity: i64) -> (l: LightSrc)
        ensures
            l == (LightSrc { pos, intensity }),
    {
        LightSrc { pos, intensity }
    }
}

pub open spec fn color_valid(c: Color) -> bool {
    &&& 0 <= c.red <= COLOR_MAX
    &&& 0 <= c.green <= COLOR_MAX
    &&& 0 <= c.blue <= COLOR_MAX
}

pub open spec fn surface_valid(s: SurfaceType) -> bool {
    match s {
        SurfaceType::Diffuse => true,
        SurfaceType::Reflective { reflectivity } => 0 <= reflectivity <= SCALE,
    }
}

pub open spec fn material_valid(m: Material) -> bool {
    &&& color_valid(m.coloration)
    &&& 0 <= m.albedo <= ALBEDO_MAX
    &&& surface_valid(m.surface)
}

pub open spec fn light_valid(l: LightSrc) -> bool {
    &&& in_range(l.pos, POS_MAX as int)
    &&& 0 <= l.intensity <= INTENSITY_MAX
}

} // verus!
