//! The render driver: an orthographic camera, a framebuffer of RGB bytes,
//! and the per-pixel loop tying intersection and shading together.

use vstd::prelude::*;
use crate::fixed::{SCALE, div_trunc};
use crate::ray::Ray;
use crate::scene::{Scene, scene_valid, nearest_hit_spec};
use crate::shade::{shade_spec, get_color, BIAS_MAX};
use crate::vec3::{Vector3, in_range, POS_MAX};

verus! {

/// Largest accepted image dimension.
pub const MAX_DIM: u32 = 8192;

/// The fixed background level written to unlit pixels (a dark gray).
pub const BG_LEVEL: u8 = 20;

/// A width x height grid of RGB byte triples, row-major, three bytes per
/// pixel.
pub struct Framebuffer {
    pub width: u32,
    pub height: u32,
    pub pixels: Vec<u8>,
}

/// The pixel storage matches the dimensions.
pub open spec fn fb_wf(fb: Framebuffer) -> bool {
    &&& fb.width <= MAX_DIM
    &&& fb.height <= MAX_DIM
    &&& fb.pixels@.len() == fb.width * fb.height * 3
}

/// Index of pixel `(x, y)`'s red byte.
pub open spec fn pix_index(fb: Framebuffer, x: int, y: int) -> int {
    3 * (y * fb.width + x)
}

/// The RGB triple stored for pixel `(x, y)`.
pub open spec fn pixel_at(fb: Framebuffer, x: int, y: int) -> (u8, u8, u8) {
    (
        fb.pixels@[pix_index(fb, x, y)],
        fb.pixels@[pix_index(fb, x, y) + 1],
        fb.pixels@[pix_index(fb, x, y) + 2],
    )
}

/// Distinct pixels occupy distinct storage: their linear indices differ by
/// at least one whole pixel.
proof fn lemma_pixel_index_injective(w: int, x1: int, y1: int, x2: int, y2: int)
    requires
        0 <= x1 < w,
        0 <= x2 < w,
        0 <= y1,
        0 <= y2,
        (x1, y1) != (x2, y2),
    ensures
        y1 * w + x1 != y2 * w + x2,
{
    if y1 < y2 {
        assert(y1 * w + x1 < (y1 + 1) * w) by (nonlinear_arith)
            requires
                0 <= x1 < w,
        ;
        assert((y1 + 1) * w <= y2 * w) by (nonlinear_arith)
            requires
                y1 + 1 <= y2 && w > 0,
        ;
    } else if y2 < y1 {
        assert(y2 * w + x2 < (y2 + 1) * w) by (nonlinear_arith)
            requires
                0 <= x2 < w,
        ;
        assert((y2 + 1) * w <= y1 * w) by (nonlinear_arith)
            requires
                y2 + 1 <= y1 && w > 0,
        ;
    }
}

impl Framebuffer {
    /// An all-black framebuffer of the given dimensions.
    pub fn new(width: u32, height: u32) -> (fb: Framebuffer)
        requires
            width <= MAX_DIM,
            height <= MAX_DIM,
        ensures
            fb.width == width,
            fb.height == height,
            fb_wf(fb),
            forall|i: int| 0 <= i < fb.pixels@.len() ==> fb.pixels@[i] == 0u8,
    {
        proof {
            assert((width as int) * (height as int) <= 8192 * 8192) by (nonlinear_arith)
                requires
                    width <= 8192 && height <= 8192,
            ;
        }
        let n: usize = (width as usize) * (height as usize) * 3;
        let mut pixels: Vec<u8> = Vec::new();
        let mut i: usize = 0;
        while i < n
            invariant
                0 <= i <= n,
                pixels@.len() == i,
                forall|j: int| 0 <= j < i ==> pixels@[j] == 0u8,
            decreases n - i,
        {
            pixels.push(0u8);
            i += 1;
        }
        Framebuffer { width, height, pixels }
    }

    /// Write one pixel; every other byte of the buffer is untouched.
    pub fn set_pixel(&mut self, x: u32, y: u32, r: u8, g: u8, b: u8)
        requires
            fb_wf(*old(self)),
            x < old(self).width,
            y < old(self).height,
        ensures
            fb_wf(*final(self)),
            final(self).width == old(self).width,
            final(self).height == old(self).height,
            final(self).pixels@ == old(self).pixels@.update(
                pix_index(*old(self), x as int, y as int),
                r,
            ).update(pix_index(*old(self), x as int, y as int) + 1, g).update(
                pix_index(*old(self), x as int, y as int) + 2,
                b,
            ),
    {
        proof {
            assert((y as int) * (self.width as int) + (x as int) < (self.height as int) * (
            self.width as int)) by (nonlinear_arith)
                requires
                    0 <= x < self.width && 0 <= y < self.height,
            ;
            assert((self.height as int) * (self.width as int) * 3 == (self.width as int) * (
            self.height as int) * 3) by (nonlinear_arith);
            assert((y as int) * (self.width as int) + (x as int) <= 8191 * 8192 + 8191)
                by (nonlinear_arith)
                requires
                    0 <= x < self.width <= 8192 && 0 <= y < self.height <= 8192,
            ;
        }
        let index: usize = ((y as usize) * (self.width as usize) + (x as usize)) * 3;
        self.pixels.set(index, r);
        self.pixels.set(index + 1, g);
        self.pixels.set(index + 2, b);
    }

    /// Read one pixel back.
    pub fn get_pixel(&self, x: u32, y: u32) -> (rgb: (u8, u8, u8))
        requires
            fb_wf(*self),
            x < self.width,
            y < self.height,
        ensures
            rgb == pixel_at(*self, x as int, y as int),
    {
        proof {
            assert((y as int) * (self.width as int) + (x as int) < (self.height as int) * (
            self.width as int)) by (nonlinear_arith)
                requires
                    0 <= x < self.width && 0 <= y < self.height,
            ;
            assert((self.height as int) * (self.width as int) * 3 == (self.width as int) * (
            self.height as int) * 3) by (nonlinear_arith);
            assert((y as int) * (self.width as int) + (x as int) <= 8191 * 8192 + 8191)
                by (nonlinear_arith)
                requires
                    0 <= x < self.width <= 8192 && 0 <= y < self.height <= 8192,
            ;
        }
        let index: usize = ((y as usize) * (self.width as usize) + (x as usize)) * 3;
        (self.pixels[index], self.pixels[index + 1], self.pixels[index + 2])
    }
}

/// The orthographic camera: parallel projection along `z`, pixel
/// coordinates mapped one-to-one to world `x` and `y`.
pub struct OrthoCamera {
    pub pos: Vector3,
    pub width: u32,
    pub height: u32,
    pub shadow_bias: i64,
    pub max_recursion_depth: u32,
}

/// Camera settings the driver accepts.
pub open spec fn camera_valid(cam: OrthoCamera) -> bool {
    &&& in_range(cam.pos, POS_MAX as int)
    &&& cam.width <= MAX_DIM
    &&& cam.height <= MAX_DIM
    &&& 0 <= cam.shadow_bias <= BIAS_MAX
}

/// The primary ray for pixel `(x, y)`: origin at the pixel's world
/// position on the camera plane, direction straight along `z`.
pub open spec fn primary_ray_spec(cam: OrthoCamera, x: int, y: int) -> Ray {
    Ray {
        pos: Vector3 {
            x: (x * (SCALE as int)) as i64,
            y: (y * (SCALE as int)) as i64,
            z: cam.pos.z,
        },
        dir: Vector3 { x: 0i64, y: 0i64, z: SCALE },
    }
}

/// Clamp a fixed-point channel into a display byte: negative values to
/// zero, values above `255` to `255`, and whole units otherwise.
pub open spec fn clamp_spec(c: int) -> u8 {
    if c < 0 {
        0u8
    } else if c > 255 * (SCALE as int) {
        255u8
    } else {
        div_trunc(c, SCALE as int) as u8
    }
}

/// Map a shaded channel to its display byte.
pub fn clamp_channel(c: i64) -> (r: u8)
    ensures
        r == clamp_spec(c as int),
{
    if c < 0 {
        0
    } else if c > 255 * SCALE {
        255
    } else {
        proof {
            assert(0 <= (c as int) / (SCALE as int) <= 255) by (nonlinear_arith)
                requires
                    0 <= c <= 255 * 1000 && SCALE == 1000,
            ;
        }
        ((c as u64) / (SCALE as u64)) as u8
    }
}

/// What the renderer must store at pixel `(x, y)`: the background for a
/// miss or degenerate shading, otherwise the shaded color clamped to
/// bytes.
pub open spec fn pixel_spec(sc: Scene, cam: OrthoCamera, x: int, y: int) -> (u8, u8, u8) {
    let ray = primary_ray_spec(cam, x, y);
    match nearest_hit_spec(sc, ray) {
        None => (BG_LEVEL, BG_LEVEL, BG_LEVEL),
        Some(h) => match shade_spec(sc, ray, h, cam.shadow_bias) {
            None => (BG_LEVEL, BG_LEVEL, BG_LEVEL),
            Some(c) => (
                clamp_spec(c.red as int),
                clamp_spec(c.green as int),
                clamp_spec(c.blue as int),
            ),
        },
    }
}

/// Render the scene: one primary ray per pixel, nearest-hit visibility,
/// diffuse shading with hard shadows, background on a miss. Every pixel of
/// the result is exactly what `pixel_spec` prescribes; pixels are
/// independent of one another.
pub fn render(scene: &Scene, cam: &OrthoCamera) -> (fb: Framebuffer)
    requires
        scene_valid(*scene),
        camera_valid(*cam),
    ensures
        fb.width == cam.width,
        fb.height == cam.height,
        fb_wf(fb),
        forall|x: int, y: int|
            0 <= x < cam.width && 0 <= y < cam.height ==> #[trigger] pixel_at(fb, x, y)
                == pixel_spec(*scene, *cam, x, y),
{
    let mut fb = Framebuffer::new(cam.width, cam.height);
    let mut y: u32 = 0;
    while y < cam.height
        invariant
            scene_valid(*scene),
            camera_valid(*cam),
            fb_wf(fb),
            fb.width == cam.width,
            fb.height == cam.height,
            0 <= y <= cam.height,
            forall|xp: int, yp: int|
                0 <= xp < cam.width && 0 <= yp < y ==> #[trigger] pixel_at(fb, xp, yp)
                    == pixel_spec(*scene, *cam, xp, yp),
        decreases cam.height - y,
    {
        let mut x: u32 = 0;
        while x < cam.width
            invariant
                scene_valid(*scene),
                camera_valid(*cam),
                fb_wf(fb),
                fb.width == cam.width,
                fb.height == cam.height,
                0 <= y < cam.height,
                0 <= x <= cam.width,
                forall|xp: int, yp: int|
                    0 <= xp < cam.width && 0 <= yp < y ==> #[trigger] pixel_at(fb, xp, yp)
                        == pixel_spec(*scene, *cam, xp, yp),
                forall|xp: int|
                    0 <= xp < x ==> #[trigger] pixel_at(fb, xp, y as int) == pixel_spec(
                        *scene,
                        *cam,
                        xp,
                        y as int,
                    ),
            decreases cam.width - x,
        {
            let ray = Ray::new(
                Vector3::new((x as i64) * SCALE, (y as i64) * SCALE, cam.pos.z),
                Vector3::new(0, 0, SCALE),
            );
            proof {
                assert(ray == primary_ray_spec(*cam, x as int, y as int));
            }
            let res = scene.nearest_hit(&ray);
            let rr: u8;
            let gg: u8;
            let bb: u8;
            match res {
                None => {
                    rr = BG_LEVEL;
                    gg = BG_LEVEL;
                    bb = BG_LEVEL;
                },
                Some(h) => {
                    match get_color(scene, &ray, &h, cam.shadow_bias) {
                        Ok(c) => {
                            rr = clamp_channel(c.red);
                            gg = clamp_channel(c.green);
                            bb = clamp_channel(c.blue);
                        },
                        Err(_) => {
                            rr = BG_LEVEL;
                            gg = BG_LEVEL;
                            bb = BG_LEVEL;
                        },
                    }
                },
            }
            proof {
                assert((rr, gg, bb) == pixel_spec(*scene, *cam, x as int, y as int));
            }
            let ghost fb_before = fb;
            fb.set_pixel(x, y, rr, gg, bb);
            proof {
                lemma_set_pixel_frame(fb_before, fb, x as int, y as int, rr, gg, bb);
            }
            x += 1;
        }
        y += 1;
    }
    fb
}

/// After writing pixel `(x, y)`, that pixel holds the written triple and
/// every other pixel is unchanged.
proof fn lemma_set_pixel_frame(
    before: Framebuffer,
    after: Framebuffer,
    x: int,
    y: int,
    r: u8,
    g: u8,
    b: u8,
)
    requires
        fb_wf(before),
        0 <= x < before.width,
        0 <= y < before.height,
        after.width == before.width,
        after.height == before.height,
        after.pixels@ == before.pixels@.update(pix_index(before, x, y), r).update(
            pix_index(before, x, y) + 1,
            g,
        ).update(pix_index(before, x, y) + 2, b),
    ensures
        pixel_at(after, x, y) == (r, g, b),
        forall|xp: int, yp: int|
            0 <= xp < before.width && 0 <= yp < before.height && (xp, yp) != (x, y)
                ==> #[trigger] pixel_at(after, xp, yp) == pixel_at(before, xp, yp),
{
    let w = before.width as int;
    let h = before.height as int;
    assert(0 <= y * w + x < h * w) by (nonlinear_arith)
        requires
            0 <= x < w && 0 <= y < h,
    ;
    assert(h * w * 3 == w * h * 3) by (nonlinear_arith);
    assert forall|xp: int, yp: int|
        0 <= xp < before.width && 0 <= yp < before.height && (xp, yp) != (x, y) implies #[trigger] pixel_at(
        after,
        xp,
        yp,
    ) == pixel_at(before, xp, yp) by {
        lemma_pixel_index_injective(w, xp, yp, x, y);
        assert(0 <= yp * w + xp < h * w) by (nonlinear_arith)
            requires
                0 <= xp < w && 0 <= yp < h,
        ;
    }
}

} // verus!
