//! The camera and the rendering loop: viewport geometry, per-pixel ray
//! generation with jitter, recursive color integration, sample
//! averaging and quantization to 8-bit channels.

use vstd::prelude::*;

verus! {

use crate::vec3::Vec3;
use crate::vec3::V3;
use crate::vec3::in_range;
use crate::vec3::sumsq_s;
use crate::vec3::add_s;
use crate::vec3::sub_s;
use crate::vec3::scale_s;
use crate::vec3::normalize_s;
use crate::ray::Ray;
use crate::ray::RayS;
use crate::interval::Interval;
use crate::hittable_list::HittableList;
use crate::hittable_list::list_wf;
use crate::hittable_list::list_hit_s;
use crate::material::color_in_unit;
use crate::material::albedo_s;
use crate::vec3::mul_s;
use crate::hittable_list::ObjS;
use crate::image_handler::pix_idx;
use crate::image_handler::ImageHandler;
use crate::image_handler::img_wf;
use crate::fixed;
use crate::fixed::div_tz;
use crate::fixed::lemma_div_tz_bounds;
use crate::fixed::lemma_div_tz_le_abs;
use crate::fixed::lemma_div_tz_lt_abs;
use crate::fixed::lemma_div_tz_exact;
use crate::fixed::lemma_div_tz_ordered;
use crate::fixed::lemma_mul_abs_bound;

/// The mathematical model of the camera.
pub struct CamS {
    pub aspect_ratio: int,
    pub image_width: int,
    pub samples_per_pixel: int,
    pub max_depth: int,
    pub image_height: int,
    pub pixel_samples_scale: int,
    pub center: V3,
    pub pixel00_loc: V3,
    pub pixel_delta_u: V3,
    pub pixel_delta_v: V3,
}

/// Derived image height: `width / aspect`, truncated, at least one row.
pub open spec fn derived_height(w: int, aspect: int) -> int {
    let h = div_tz(w * 65536, aspect);
    if h < 1 {
        1
    } else {
        h
    }
}

/// Derived viewport width: viewport height 2.0 scaled by the pixel
/// aspect `w / h`.
pub open spec fn derived_vw(w: int, h: int) -> int {
    div_tz(131072 * w, h)
}

/// The per-pixel horizontal step.
pub open spec fn derived_du(w: int, h: int) -> int {
    div_tz(derived_vw(w, h), w)
}

/// The per-pixel vertical step (downward, so negative).
pub open spec fn derived_dvy(h: int) -> int {
    -div_tz(131072, h)
}

/// The `x` coordinate of the top-left pixel center: the viewport's left
/// edge plus half a pixel step.
pub open spec fn derived_p00x(w: int, h: int) -> int {
    -div_tz(derived_vw(w, h), 2) + div_tz(derived_du(w, h), 2)
}

/// The `y` coordinate of the top-left pixel center.
pub open spec fn derived_p00y(h: int) -> int {
    65536 + div_tz(derived_dvy(h), 2)
}

/// The direction of the ray through pixel `(x, y)`, jittered by
/// `(jx, jy)` inside the pixel square: the pixel sample point minus the
/// eye.
pub open spec fn ray_dir_s(cam: CamS, x: int, y: int, jx: int, jy: int) -> V3 {
    sub_s(
        add_s(
            add_s(cam.pixel00_loc, scale_s(cam.pixel_delta_u, x * 65536 + jx)),
            scale_s(cam.pixel_delta_v, y * 65536 + jy),
        ),
        cam.center,
    )
}

/// The viewport bounds every ray-generation step relies on; established
/// by initialization and preserved thereafter.
pub open spec fn cam_wf(c: CamS) -> bool {
    &&& 1 <= c.image_width <= 16384
    &&& 1 <= c.image_height <= 16384
    &&& c.center == (V3 { x: 0, y: 0, z: 0 })
    &&& c.pixel_delta_u.y == 0 && c.pixel_delta_u.z == 0
    &&& 0 <= c.pixel_delta_u.x <= 0x200_0000
    &&& c.pixel_delta_u.x * c.image_width <= 0x200_0000
    &&& c.pixel_delta_v.x == 0 && c.pixel_delta_v.z == 0
    &&& -131072 <= c.pixel_delta_v.y <= 0
    &&& c.pixel_delta_v.y * c.image_height >= -131072
    &&& in_range(c.pixel00_loc, 0x200_0000)
    &&& c.pixel00_loc.z == -65536
}

/// The background: a vertical gradient from white at the horizon to sky
/// blue at the zenith, interpolated by `a = (unit_direction.y + 1) / 2`.
pub open spec fn background_s(ray: RayS) -> V3 {
    let u = normalize_s(ray.direction);
    let a = div_tz(u.y + 65536, 2);
    add_s(
        scale_s(V3 { x: 65536, y: 65536, z: 65536 }, 65536 - a),
        scale_s(V3 { x: 32768, y: 45875, z: 65536 }, a),
    )
}

/// Clamp a channel into `[0, 1]`.
pub open spec fn clamp_unit_s(c: int) -> int {
    if c < 0 {
        0
    } else if c > 65536 {
        65536
    } else {
        c
    }
}

/// Quantize a clamped channel to 8 bits: `floor(c * 255.999)`.
pub open spec fn quant_s(c: int) -> int {
    div_tz(clamp_unit_s(c) * 255999, 65536000)
}

/// Quantize one color channel.
pub fn quantize_channel(c: i64) -> (q: u8)
    ensures
        q == quant_s(c as int),
{
    let cc: i64 = if c < 0 {
        0
    } else if c > 65536 {
        65536
    } else {
        c
    };
    let q = fixed::div_tz_i128((cc as i128) * 255999, 65536000);
    proof {
        lemma_div_tz_bounds((cc as int) * 255999, 65536000);
        lemma_div_tz_lt_abs((cc as int) * 255999, 65536000, 256);
    }
    q as u8
}

/// Quantize a color to its three 8-bit channels.
pub fn color_to_rgb8(c: &Vec3) -> (rgb: (u8, u8, u8))
    ensures
        rgb.0 == quant_s(c@.x),
        rgb.1 == quant_s(c@.y),
        rgb.2 == quant_s(c@.z),
{
    (quantize_channel(c.x), quantize_channel(c.y), quantize_channel(c.z))
}

/// What the color integrator promises of one sample of pixel `(x, y)`:
/// the jitter lies inside the pixel square, the color is in the unit
/// cube, it is black when the bounce budget is zero, and it is exactly
/// the background gradient when the jittered ray misses the scene.
pub open spec fn sample_color_ok(
    objs: Seq<ObjS>,
    cam: CamS,
    x: int,
    y: int,
    jx: int,
    jy: int,
    c: V3,
) -> bool {
    let ray = RayS { origin: cam.center, direction: ray_dir_s(cam, x, y, jx, jy) };
    &&& -32768 <= jx <= 32767
    &&& -32768 <= jy <= 32767
    &&& color_in_unit(c)
    &&& (cam.max_depth == 0 ==> c == (V3 { x: 0, y: 0, z: 0 }))
    &&& (cam.max_depth > 0 && list_hit_s(objs, ray, 66, 0x40_0000_0000) is None ==> c
        == background_s(ray))
}

/// The componentwise sum of a sequence of colors.
pub open spec fn color_sum_s(colors: Seq<V3>) -> V3
    decreases colors.len(),
{
    if colors.len() == 0 {
        V3 { x: 0, y: 0, z: 0 }
    } else {
        add_s(color_sum_s(colors.drop_last()), colors.last())
    }
}

/// One pixel's three bytes arise from the sampling pipeline with the
/// given jitters and per-sample colors: each sample satisfies the
/// integrator's promise for its jittered ray, and the bytes are the
/// quantized channels of the scaled color sum.
pub open spec fn pixel_witness_ok(
    objs: Seq<ObjS>,
    cam: CamS,
    pixels: Seq<u8>,
    x: int,
    y: int,
    jit: Seq<(int, int)>,
    colors: Seq<V3>,
) -> bool {
    let avg = scale_s(color_sum_s(colors), cam.pixel_samples_scale);
    &&& jit.len() == cam.samples_per_pixel
    &&& colors.len() == cam.samples_per_pixel
    &&& (forall|k: int|
        0 <= k < colors.len() ==> sample_color_ok(
            objs,
            cam,
            x,
            y,
            jit[k].0,
            jit[k].1,
            #[trigger] colors[k],
        ))
    &&& pixels[pix_idx(cam.image_width, x, y)] == quant_s(avg.x)
    &&& pixels[pix_idx(cam.image_width, x, y) + 1] == quant_s(avg.y)
    &&& pixels[pix_idx(cam.image_width, x, y) + 2] == quant_s(avg.z)
}

/// The pixel at `(x, y)` was produced by jittered sampling: some
/// per-sample jitters and integrator outputs average and quantize to
/// exactly the bytes stored for it.
pub open spec fn pixel_ok(objs: Seq<ObjS>, cam: CamS, pixels: Seq<u8>, x: int, y: int) -> bool {
    exists|jit: Seq<(int, int)>, colors: Seq<V3>| pixel_witness_ok(
        objs,
        cam,
        pixels,
        x,
        y,
        jit,
        colors,
    )
}

/// Distinct pixels occupy disjoint three-byte blocks of the grid.
proof fn lemma_pix_idx_distinct(w: int, x1: int, y1: int, x2: int, y2: int)
    requires
        0 <= x1 < w,
        0 <= x2 < w,
        0 <= y1,
        0 <= y2,
        !(x1 == x2 && y1 == y2),
    ensures
        pix_idx(w, x1, y1) + 2 < pix_idx(w, x2, y2) || pix_idx(w, x2, y2) + 2 < pix_idx(
            w,
            x1,
            y1,
        ),
{
    assert(y1 * w + x1 < y2 * w + x2 || y2 * w + x2 < y1 * w + x1) by (nonlinear_arith)
        requires
            0 <= x1 < w,
            0 <= x2 < w,
            0 <= y1,
            0 <= y2,
            !(x1 == x2 && y1 == y2),
    ;
}

/// A pixel's witness only reads that pixel's three bytes, so any write
/// elsewhere in the grid preserves it.
proof fn lemma_pixel_ok_frame(
    objs: Seq<ObjS>,
    cam: CamS,
    pixels1: Seq<u8>,
    pixels2: Seq<u8>,
    x: int,
    y: int,
)
    requires
        pixel_ok(objs, cam, pixels1, x, y),
        pixels2[pix_idx(cam.image_width, x, y)] == pixels1[pix_idx(cam.image_width, x, y)],
        pixels2[pix_idx(cam.image_width, x, y) + 1] == pixels1[pix_idx(cam.image_width, x, y)
            + 1],
        pixels2[pix_idx(cam.image_width, x, y) + 2] == pixels1[pix_idx(cam.image_width, x, y)
            + 2],
    ensures
        pixel_ok(objs, cam, pixels2, x, y),
{
    let (jit, colors) = choose|jit: Seq<(int, int)>, colors: Seq<V3>| pixel_witness_ok(
        objs,
        cam,
        pixels1,
        x,
        y,
        jit,
        colors,
    );
    assert(pixel_witness_ok(objs, cam, pixels2, x, y, jit, colors));
}

/// One jitter offset, uniform over one pixel square.
fn sample_square(rng: &mut rand::rngs::StdRng) -> (o: (i64, i64))
    ensures
        -32768 <= o.0 <= 32767,
        -32768 <= o.1 <= 32767,
{
    let a = (crate::rng::next_u64(rng) % 65536) as i64 - 32768;
    let b = (crate::rng::next_u64(rng) % 65536) as i64 - 32768;
    (a, b)
}

/// Attenuating the zero color yields the zero color: each channel
/// product is zero before the scale-down.
proof fn lemma_mul_color_zero(a: V3)
    ensures
        mul_s(a, V3 { x: 0, y: 0, z: 0 }) == (V3 { x: 0, y: 0, z: 0 }),
        color_in_unit(V3 { x: 0, y: 0, z: 0 }),
{
    vstd::arithmetic::div_mod::lemma_div_of0(65536);
    assert(a.x * 0 == 0) by (nonlinear_arith);
    assert(a.y * 0 == 0) by (nonlinear_arith);
    assert(a.z * 0 == 0) by (nonlinear_arith);
}

/// The camera: fixed optics (focal length 1, viewport height 2) over a
/// configurable image size, sample count and bounce budget.
pub struct Camera {
    pub aspect_ratio: i64,
    pub image_width: u32,
    pub samples_per_pixel: u32,
    pub max_depth: u32,
    pub image_height: u32,
    pub pixel_samples_scale: i64,
    pub center: Vec3,
    pub pixel00_loc: Vec3,
    pub pixel_delta_u: Vec3,
    pub pixel_delta_v: Vec3,
}

impl View for Camera {
    type V = CamS;

    open spec fn view(&self) -> CamS {
        CamS {
            aspect_ratio: self.aspect_ratio as int,
            image_width: self.image_width as int,
            samples_per_pixel: self.samples_per_pixel as int,
            max_depth: self.max_depth as int,
            image_height: self.image_height as int,
            pixel_samples_scale: self.pixel_samples_scale as int,
            center: self.center@,
            pixel00_loc: self.pixel00_loc@,
            pixel_delta_u: self.pixel_delta_u@,
            pixel_delta_v: self.pixel_delta_v@,
        }
    }
}

impl Camera {
    /// Recompute the derived viewport geometry from the current image
    /// parameters.
    fn initialize(&mut self)
        requires
            1 <= old(self).image_width <= 16384,
            1024 <= old(self).aspect_ratio <= 0x40_0000,
            derived_height(old(self)@.image_width, old(self)@.aspect_ratio) <= 16384,
            1 <= old(self).samples_per_pixel,
        ensures
            final(self).aspect_ratio == old(self).aspect_ratio,
            final(self).image_width == old(self).image_width,
            final(self).samples_per_pixel == old(self).samples_per_pixel,
            final(self).max_depth == old(self).max_depth,
            final(self)@.image_height == derived_height(
                old(self)@.image_width,
                old(self)@.aspect_ratio,
            ),
            final(self)@.pixel_samples_scale == div_tz(65536, old(self)@.samples_per_pixel),
            final(self)@.pixel_delta_u == (V3 {
                x: derived_du(final(self)@.image_width, final(self)@.image_height),
                y: 0,
                z: 0,
            }),
            final(self)@.pixel_delta_v == (V3 {
                x: 0,
                y: derived_dvy(final(self)@.image_height),
                z: 0,
            }),
            final(self)@.pixel00_loc == (V3 {
                x: derived_p00x(final(self)@.image_width, final(self)@.image_height),
                y: derived_p00y(final(self)@.image_height),
                z: -65536,
            }),
            cam_wf(final(self)@),
    {
        let w: i64 = self.image_width as i64;
        let ghost gw = w as int;
        let ghost ga = self.aspect_ratio as int;
        let hq = fixed::div_tz_i128((w as i128) * 65536, self.aspect_ratio as i128);
        proof {
            lemma_div_tz_bounds(gw * 65536, ga);
        }
        let h: i64 = if hq < 1 {
            1
        } else {
            hq as i64
        };
        self.image_height = h as u32;
        let ghost gh = h as int;
        let sc = fixed::div_tz_i128(65536, self.samples_per_pixel as i128);
        proof {
            lemma_div_tz_bounds(65536, old(self)@.samples_per_pixel);
        }
        self.pixel_samples_scale = sc as i64;
        proof {
            // the width is at most 256 times the height
            if ga >= 65536 && gw > 128 {
                assert(ga <= 128 * 65536);
                vstd::arithmetic::div_mod::lemma_div_is_ordered_by_denominator(
                    gw * 65536,
                    ga,
                    0x80_0000 as int,
                );
                vstd::arithmetic::div_mod::lemma_div_denominator(gw * 65536, 65536, 128);
                vstd::arithmetic::div_mod::lemma_div_by_multiple(gw, 65536);
                assert(div_tz(gw * 65536, ga) >= (gw * 65536) / (0x80_0000 as int));
                assert((gw * 65536) / (0x80_0000 as int) == gw / 128);
                lemma_div_tz_bounds(gw, 128);
                assert(gh >= gw / 128);
                assert((gw / 128) * 128 >= gw - 127);
                assert(128 * gh >= 128 * (gw / 128)) by (nonlinear_arith)
                    requires
                        gh >= gw / 128,
                ;
                assert(128 * (gw / 128) == (gw / 128) * 128) by (nonlinear_arith);
                assert(128 * gh >= gw - 127);
            } else if ga >= 65536 {
                assert(128 * gh >= gw - 127);
            } else {
                // aspect below one: at least as many rows as columns
                vstd::arithmetic::div_mod::lemma_div_is_ordered_by_denominator(
                    gw * 65536,
                    ga,
                    65536,
                );
                vstd::arithmetic::div_mod::lemma_div_by_multiple(gw, 65536);
                assert(div_tz(gw * 65536, ga) >= (gw * 65536) / 65536);
                assert(gh >= gw);
                assert(128 * gh >= gw - 127);
            }
            assert(256 * gh >= gw);
        }
        let vw = fixed::div_tz_i128(131072 * (w as i128), h as i128);
        proof {
            lemma_div_tz_bounds(131072 * gw, gh);
            assert(131072 * gw <= 0x200_0000 * gh) by (nonlinear_arith)
                requires
                    256 * gh >= gw,
                    gh >= 1,
            ;
            lemma_div_tz_le_abs(131072 * gw, gh, 0x200_0000);
        }
        let du = fixed::div_tz_i128(vw, w as i128);
        proof {
            lemma_div_tz_bounds(vw as int, gw);
        }
        let dv = fixed::div_tz_i128(131072, h as i128);
        proof {
            lemma_div_tz_bounds(131072, gh);
        }
        self.center = Vec3::new(0, 0, 0);
        self.pixel_delta_u = Vec3::new(du as i64, 0, 0);
        self.pixel_delta_v = Vec3::new(0, -(dv as i64), 0);
        let p00x = fixed::div_tz_i128(du, 2) - fixed::div_tz_i128(vw, 2);
        let p00y = 65536 + fixed::div_tz_i128(-dv, 2);
        proof {
            lemma_div_tz_bounds(du as int, 2);
            lemma_div_tz_bounds(vw as int, 2);
            lemma_div_tz_bounds(-(dv as int), 2);
            crate::fixed::lemma_div_tz_neg(dv as int, 2);
            // the horizontal step times the width stays within the viewport
            assert((du as int) * gw <= vw) by {
                lemma_div_tz_bounds(vw as int, gw);
                vstd::arithmetic::mul::lemma_mul_is_commutative(du as int, gw);
            }
            // the vertical step times the height stays within the viewport
            assert((-(dv as int)) * gh >= -131072) by {
                lemma_div_tz_bounds(131072, gh);
                vstd::arithmetic::mul::lemma_mul_is_commutative(dv as int, gh);
                assert((-(dv as int)) * gh == -((dv as int) * gh)) by (nonlinear_arith);
            }
        }
        self.pixel00_loc = Vec3::new(p00x as i64, p00y as i64, -65536);
    }

    /// A camera over the given image width and aspect ratio, with the
    /// default sample count and bounce budget.
    pub fn new(image_width: u32, aspect_ratio: i64) -> (r: Self)
        requires
            1 <= image_width <= 16384,
            1024 <= aspect_ratio <= 0x40_0000,
            derived_height(image_width as int, aspect_ratio as int) <= 16384,
        ensures
            r@.image_width == image_width as int,
            r@.aspect_ratio == aspect_ratio as int,
            r@.samples_per_pixel == 10,
            r@.max_depth == 50,
            r@.image_height == derived_height(image_width as int, aspect_ratio as int),
            r@.pixel_samples_scale == div_tz(65536, 10),
            r@.center == (V3 { x: 0, y: 0, z: 0 }),
            r@.pixel_delta_u == (V3 {
                x: derived_du(r@.image_width, r@.image_height),
                y: 0,
                z: 0,
            }),
            r@.pixel_delta_v == (V3 { x: 0, y: derived_dvy(r@.image_height), z: 0 }),
            r@.pixel00_loc == (V3 {
                x: derived_p00x(r@.image_width, r@.image_height),
                y: derived_p00y(r@.image_height),
                z: -65536,
            }),
            cam_wf(r@),
    {
        let mut camera = Camera {
            aspect_ratio,
            image_width,
            samples_per_pixel: 10,
            max_depth: 50,
            image_height: 0,
            pixel_samples_scale: 0,
            center: Vec3::new(0, 0, 0),
            pixel00_loc: Vec3::new(0, 0, 0),
            pixel_delta_u: Vec3::new(0, 0, 0),
            pixel_delta_v: Vec3::new(0, 0, 0),
        };
        camera.initialize();
        camera
    }

    pub fn image_height(&self) -> (r: u32)
        ensures
            r == self@.image_height,
    {
        self.image_height
    }

    /// The ray through pixel `(i, j)`, jittered by the given offset
    /// inside the pixel square. The ray leaves the eye at the origin
    /// and always has `z = -1` in its direction, so its direction is
    /// never degenerate.
    pub fn get_ray(&self, i: u32, j: u32, offset_x: i64, offset_y: i64) -> (r: Ray)
        requires
            cam_wf(self@),
            i < self@.image_width,
            j < self@.image_height,
            -32768 <= offset_x <= 32767,
            -32768 <= offset_y <= 32767,
        ensures
            r@.origin == self@.center,
            r@.direction == ray_dir_s(
                self@,
                i as int,
                j as int,
                offset_x as int,
                offset_y as int,
            ),
            in_range(r@.direction, 0x400_0000),
            r@.direction.z == -65536,
            sumsq_s(r@.direction) >= 16,
    {
        let ki: i64 = (i as i64) * 65536 + offset_x;
        let kj: i64 = (j as i64) * 65536 + offset_y;
        let ghost du = self@.pixel_delta_u;
        let ghost dv = self@.pixel_delta_v;
        let ghost gw = self@.image_width;
        let ghost gh = self@.image_height;
        proof {
            assert(-(0x200_0000 * 65536) <= du.x * (ki as int) <= 0x200_0000 * 65536)
                by (nonlinear_arith)
                requires
                    0 <= du.x,
                    du.x * gw <= 0x200_0000,
                    -(gw * 65536) <= ki as int <= gw * 65536,
                    gw >= 1,
            ;
            lemma_div_tz_le_abs(du.x * (ki as int), 65536, 0x200_0000);
            assert(-(131072 * 65536) <= dv.y * (kj as int) <= 131072 * 65536) by (nonlinear_arith)
                requires
                    dv.y <= 0,
                    dv.y * gh >= -131072,
                    -(gh * 65536) <= kj as int <= gh * 65536,
                    gh >= 1,
            ;
            lemma_div_tz_le_abs(dv.y * (kj as int), 65536, 131072);
            assert(du.y * (ki as int) == 0 && du.z * (ki as int) == 0) by (nonlinear_arith)
                requires
                    du.y == 0,
                    du.z == 0,
            ;
            assert(dv.x * (kj as int) == 0 && dv.z * (kj as int) == 0) by (nonlinear_arith)
                requires
                    dv.x == 0,
                    dv.z == 0,
            ;
            vstd::arithmetic::div_mod::lemma_div_of0(65536);
        }
        let su = self.pixel_delta_u.scale(ki);
        let sv = self.pixel_delta_v.scale(kj);
        let pixel_sample = self.pixel00_loc.add(&su).add(&sv);
        let dir = pixel_sample.sub(&self.center);
        proof {
            assert(dir@.x * dir@.x >= 0) by (nonlinear_arith);
            assert(dir@.y * dir@.y >= 0) by (nonlinear_arith);
        }
        Ray::new(self.center, dir)
    }

    /// Recursive color evaluation: black once the bounce budget is
    /// spent; on a hit, the material's scattered ray is followed with
    /// the attenuation applied (a hit without a material takes a fixed
    /// half-attenuated diffuse bounce); on a miss, the background
    /// gradient. The result is always a color in `[0, 1]^3`.
    pub fn ray_color(
        &self,
        ray: &Ray,
        depth: u32,
        world: &HittableList,
        rng: &mut rand::rngs::StdRng,
    ) -> (c: Vec3)
        requires
            list_wf(world@),
            in_range(ray@.origin, 0x4_0000_0000),
            in_range(ray@.direction, 0x400_0000),
            sumsq_s(ray@.direction) >= 16,
        ensures
            color_in_unit(c@),
            depth == 0 ==> c@ == (V3 { x: 0, y: 0, z: 0 }),
            depth > 0 ==> (match list_hit_s(world@, ray@, 66, 0x40_0000_0000) {
                Some(h) => (match h.mat {
                    Some(m) => exists|c2: V3|
                        color_in_unit(c2) && c@ == #[trigger] mul_s(albedo_s(m), c2),
                    None => exists|c2: V3|
                        color_in_unit(c2) && c@ == #[trigger] scale_s(c2, 32768),
                }),
                None => c@ == background_s(ray@),
            }),
        decreases depth,
    {
        if depth == 0 {
            return Vec3::new(0, 0, 0);
        }
        let res = world.hit(ray, Interval { min: 66, max: 0x40_0000_0000 });
        match res {
            Some(rec) => {
                match rec.mat {
                    Some(m) => {
                        match m.scatter(ray, &rec, rng) {
                            Some((att, sc)) => {
                                let c = self.ray_color(&sc, depth - 1, world, rng);
                                proof {
                                    assert(0 <= att@.x * c@.x <= 65536 * 65536)
                                        by (nonlinear_arith)
                                        requires
                                            0 <= att@.x <= 65536,
                                            0 <= c@.x <= 65536,
                                    ;
                                    assert(0 <= att@.y * c@.y <= 65536 * 65536)
                                        by (nonlinear_arith)
                                        requires
                                            0 <= att@.y <= 65536,
                                            0 <= c@.y <= 65536,
                                    ;
                                    assert(0 <= att@.z * c@.z <= 65536 * 65536)
                                        by (nonlinear_arith)
                                        requires
                                            0 <= att@.z <= 65536,
                                            0 <= c@.z <= 65536,
                                    ;
                                    lemma_div_tz_bounds(att@.x * c@.x, 65536);
                                    lemma_div_tz_bounds(att@.y * c@.y, 65536);
                                    lemma_div_tz_bounds(att@.z * c@.z, 65536);
                                    lemma_div_tz_le_abs(att@.x * c@.x, 65536, 65536);
                                    lemma_div_tz_le_abs(att@.y * c@.y, 65536, 65536);
                                    lemma_div_tz_le_abs(att@.z * c@.z, 65536, 65536);
                                }
                                let out = att.mul(&c);
                                proof {
                                    assert(out@ == mul_s(albedo_s(m@), c@));
                                }
                                out
                            },
                            None => {
                                proof {
                                    lemma_mul_color_zero(albedo_s(m@));
                                }
                                Vec3::new(0, 0, 0)
                            },
                        }
                    },
                    None => {
                        let hemi = Vec3::random_on_hemisphere(rng, &rec.normal);
                        let dir = rec.normal.add(&hemi);
                        proof {
                            lemma_div_tz_bounds(
                                hemi@.x * rec@.normal.x + hemi@.y * rec@.normal.y + hemi@.z
                                    * rec@.normal.z,
                                65536,
                            );
                            assert(hemi@.x * hemi@.x >= 0) by (nonlinear_arith);
                            assert(hemi@.y * hemi@.y >= 0) by (nonlinear_arith);
                            assert(hemi@.z * hemi@.z >= 0) by (nonlinear_arith);
                            assert(sumsq_s(dir@) == sumsq_s(rec@.normal) + 2 * (hemi@.x
                                * rec@.normal.x + hemi@.y * rec@.normal.y + hemi@.z
                                * rec@.normal.z) + sumsq_s(hemi@)) by (nonlinear_arith)
                                requires
                                    dir@.x == rec@.normal.x + hemi@.x,
                                    dir@.y == rec@.normal.y + hemi@.y,
                                    dir@.z == rec@.normal.z + hemi@.z,
                            ;
                        }
                        let c = self.ray_color(&Ray::new(rec.p, dir), depth - 1, world, rng);
                        proof {
                            lemma_div_tz_bounds(c@.x * 32768, 65536);
                            lemma_div_tz_bounds(c@.y * 32768, 65536);
                            lemma_div_tz_bounds(c@.z * 32768, 65536);
                            lemma_div_tz_le_abs(c@.x * 32768, 65536, 65536);
                            lemma_div_tz_le_abs(c@.y * 32768, 65536, 65536);
                            lemma_div_tz_le_abs(c@.z * 32768, 65536, 65536);
                        }
                        let out = c.scale(32768);
                        proof {
                            assert(out@ == scale_s(c@, 32768));
                        }
                        out
                    },
                }
            },
            None => {
                let u = ray.direction.unit_vector();
                let a = fixed::div_tz_i128((u.y as i128) + 65536, 2) as i64;
                proof {
                    lemma_div_tz_bounds(u@.y + 65536, 2);
                }
                let white = Vec3::new(65536, 65536, 65536);
                let sky = Vec3::new(32768, 45875, 65536);
                proof {
                    let ga = a as int;
                    vstd::arithmetic::div_mod::lemma_mod_multiples_basic(65536 - ga, 65536);
                    vstd::arithmetic::mul::lemma_mul_is_commutative(65536 - ga, 65536);
                    lemma_div_tz_exact((65536 - ga) * 65536, 65536);
                    assert(65536 * (65536 - ga) == (65536 - ga) * 65536) by (nonlinear_arith);
                    assert((div_tz((65536 - ga) * 65536, 65536)) * 65536 == (65536 - ga) * 65536);
                    assert(div_tz((65536 - ga) * 65536, 65536) == 65536 - ga) by (nonlinear_arith)
                        requires
                            (div_tz((65536 - ga) * 65536, 65536)) * 65536 == (65536 - ga) * 65536,
                    ;
                    assert(0 <= 32768 * ga <= 65536 * ga) by (nonlinear_arith)
                        requires
                            0 <= ga,
                    ;
                    assert(0 <= 45875 * ga <= 65536 * ga) by (nonlinear_arith)
                        requires
                            0 <= ga,
                    ;
                    vstd::arithmetic::div_mod::lemma_mod_multiples_basic(ga, 65536);
                    vstd::arithmetic::mul::lemma_mul_is_commutative(ga, 65536);
                    lemma_div_tz_exact(ga * 65536, 65536);
                    assert(65536 * ga == ga * 65536) by (nonlinear_arith);
                    assert(div_tz(ga * 65536, 65536) == ga) by (nonlinear_arith)
                        requires
                            (div_tz(ga * 65536, 65536)) * 65536 == ga * 65536,
                    ;
                    lemma_div_tz_ordered(32768 * ga, 65536 * ga, 65536);
                    lemma_div_tz_ordered(45875 * ga, 65536 * ga, 65536);
                    lemma_div_tz_bounds(32768 * ga, 65536);
                    lemma_div_tz_bounds(45875 * ga, 65536);
                }
                white.scale(65536 - a).add(&sky.scale(a))
            },
        }
    }

    /// Render the scene into the pixel grid: for every pixel, average
    /// `samples_per_pixel` jittered ray colors, quantize, and store.
    /// Rows are written top to bottom, pixels left to right.
    pub fn render(
        &mut self,
        world: &HittableList,
        image: &mut ImageHandler,
        rng: &mut rand::rngs::StdRng,
    )
        requires
            list_wf(world@),
            1 <= old(self).image_width <= 16384,
            1024 <= old(self).aspect_ratio <= 0x40_0000,
            derived_height(old(self)@.image_width, old(self)@.aspect_ratio) <= 16384,
            1 <= old(self).samples_per_pixel <= 65536,
            img_wf(old(image)@),
            old(image)@.width == old(self)@.image_width,
            old(image)@.height == derived_height(
                old(self)@.image_width,
                old(self)@.aspect_ratio,
            ),
        ensures
            img_wf(final(image)@),
            final(image)@.width == old(image)@.width,
            final(image)@.height == old(image)@.height,
            cam_wf(final(self)@),
            final(self)@.image_height == old(image)@.height,
            final(self)@.image_width == old(self)@.image_width,
            final(self)@.samples_per_pixel == old(self)@.samples_per_pixel,
            final(self)@.max_depth == old(self)@.max_depth,
            forall|x: int, y: int|
                0 <= x < final(self)@.image_width && 0 <= y < final(self)@.image_height
                    ==> #[trigger] pixel_ok(world@, final(self)@, final(image)@.pixels, x, y),
    {
        self.initialize();
        proof {
            lemma_div_tz_bounds(65536, self@.samples_per_pixel);
        }
        let w = self.image_width;
        let h = self.image_height;
        let mut yy: u32 = h;
        while yy > 0
            invariant
                cam_wf(self@),
                list_wf(world@),
                w == self@.image_width,
                h == self@.image_height,
                yy <= h,
                1 <= self@.samples_per_pixel <= 65536,
                0 <= self@.pixel_samples_scale <= 65536,
                img_wf(image@),
                image@.width == w as int,
                image@.height == h as int,
                forall|x2: int, y2: int|
                    0 <= x2 < w as int && yy as int <= y2 < h as int ==> #[trigger] pixel_ok(
                        world@,
                        self@,
                        image@.pixels,
                        x2,
                        y2,
                    ),
            decreases yy,
        {
            let y = yy - 1;
            let mut x: u32 = 0;
            while x < w
                invariant
                    cam_wf(self@),
                    list_wf(world@),
                    w == self@.image_width,
                    h == self@.image_height,
                    yy <= h,
                    y == yy - 1,
                    x <= w,
                    1 <= self@.samples_per_pixel <= 65536,
                    0 <= self@.pixel_samples_scale <= 65536,
                    img_wf(image@),
                    image@.width == w as int,
                    image@.height == h as int,
                    forall|x2: int, y2: int|
                        0 <= x2 < w as int && yy as int <= y2 < h as int ==> #[trigger] pixel_ok(
                            world@,
                            self@,
                            image@.pixels,
                            x2,
                            y2,
                        ),
                    forall|x2: int|
                        0 <= x2 < x as int ==> #[trigger] pixel_ok(
                            world@,
                            self@,
                            image@.pixels,
                            x2,
                            y as int,
                        ),
                decreases w - x,
            {
                let mut pixel_color = Vec3::new(0, 0, 0);
                let samples = self.samples_per_pixel;
                let ghost mut jits: Seq<(int, int)> = Seq::empty();
                let ghost mut cols: Seq<V3> = Seq::empty();
                let mut s: u32 = 0;
                while s < samples
                    invariant
                        cam_wf(self@),
                        list_wf(world@),
                        w == self@.image_width,
                        h == self@.image_height,
                        x < w,
                        y < h,
                        s <= samples,
                        samples == self@.samples_per_pixel,
                        samples <= 65536,
                        jits.len() == s as int,
                        cols.len() == s as int,
                        forall|k: int|
                            0 <= k < s as int ==> sample_color_ok(
                                world@,
                                self@,
                                x as int,
                                y as int,
                                jits[k].0,
                                jits[k].1,
                                #[trigger] cols[k],
                            ),
                        pixel_color@ == color_sum_s(cols),
                        0 <= pixel_color@.x <= (s as int) * 65536,
                        0 <= pixel_color@.y <= (s as int) * 65536,
                        0 <= pixel_color@.z <= (s as int) * 65536,
                    decreases samples - s,
                {
                    let (ox, oy) = sample_square(rng);
                    let r = self.get_ray(x, y, ox, oy);
                    let c = self.ray_color(&r, self.max_depth, world, rng);
                    proof {
                        assert((s as int) * 65536 + 65536 == ((s + 1) as int) * 65536)
                            by (nonlinear_arith);
                    }
                    pixel_color = pixel_color.add(&c);
                    proof {
                        let ghost prevj = jits;
                        let ghost prevc = cols;
                        jits = jits.push((ox as int, oy as int));
                        cols = cols.push(c@);
                        assert(cols.drop_last() =~= prevc);
                        assert(cols.last() == c@);
                        assert(r@ == (RayS {
                            origin: self@.center,
                            direction: ray_dir_s(self@, x as int, y as int, ox as int, oy as int),
                        }));
                        assert(sample_color_ok(
                            world@,
                            self@,
                            x as int,
                            y as int,
                            ox as int,
                            oy as int,
                            c@,
                        ));
                        assert forall|k: int| 0 <= k < (s as int) + 1 implies sample_color_ok(
                            world@,
                            self@,
                            x as int,
                            y as int,
                            jits[k].0,
                            jits[k].1,
                            #[trigger] cols[k],
                        ) by {
                            if k < s as int {
                                assert(cols[k] == prevc[k]);
                                assert(jits[k] == prevj[k]);
                            }
                        }
                    }
                    s = s + 1;
                }
                proof {
                    assert((samples as int) * 65536 <= 0x1_0000_0000) by (nonlinear_arith)
                        requires
                            samples <= 65536,
                    ;
                    lemma_mul_abs_bound(pixel_color@.x, 0x1_0000_0000, self@.pixel_samples_scale,
                        65536);
                    lemma_mul_abs_bound(pixel_color@.y, 0x1_0000_0000, self@.pixel_samples_scale,
                        65536);
                    lemma_mul_abs_bound(pixel_color@.z, 0x1_0000_0000, self@.pixel_samples_scale,
                        65536);
                }
                let avg = pixel_color.scale(self.pixel_samples_scale);
                let rgb = color_to_rgb8(&avg);
                let ghost oldpix = image@.pixels;
                image.set_pixel(x, y, rgb.0, rgb.1, rgb.2);
                proof {
                    let gw = w as int;
                    let gx = x as int;
                    let gy = y as int;
                    assert(gw * (h as int) <= 0x1000_0000) by (nonlinear_arith)
                        requires
                            1 <= gw <= 16384,
                            1 <= h <= 16384,
                    ;
                    assert(0 <= gy * gw + gx && gy * gw + gx < gw * (h as int))
                        by (nonlinear_arith)
                        requires
                            0 <= gx < gw,
                            0 <= gy < h as int,
                    ;
                    assert(pixel_witness_ok(world@, self@, image@.pixels, gx, gy, jits, cols));
                    assert forall|x2: int, y2: int|
                        (0 <= x2 < gw && yy as int <= y2 < h as int) || (0 <= x2 < gx && y2
                            == gy) implies #[trigger] pixel_ok(
                        world@,
                        self@,
                        image@.pixels,
                        x2,
                        y2,
                    ) by {
                        assert(0 <= y2 * gw + x2 && y2 * gw + x2 < gw * (h as int))
                            by (nonlinear_arith)
                            requires
                                0 <= x2 < gw,
                                0 <= y2 < h as int,
                        ;
                        lemma_pix_idx_distinct(gw, x2, y2, gx, gy);
                        lemma_pixel_ok_frame(world@, self@, oldpix, image@.pixels, x2, y2);
                    }
                }
                x = x + 1;
            }
            yy = yy - 1;
        }
    }
}

} // verus!
