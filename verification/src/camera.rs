//! The camera: view configuration, the derived per-render state, jittered
//! ray generation with depth of field, the recursive shading loop and the
//! render driver.

use crate::fixed::{
    div_raw, floor_div_i128, lemma_div_bound, lemma_mul_bound, lemma_mul_raw_bound,
    lemma_mul_raw_unit, lemma_pixel_scale_bound, mul_raw, Fx, HALF_RAW, SCALE,
};
use crate::hittable::HitRecord;
use crate::hittable_list::{list_hit_spec, list_wf, ray_wf, HittableList};
use crate::interval::Interval;
use crate::material::{color_in_unit, scatter_outcome_ok, Material, ScatterResult};
use crate::ray::Ray;
use crate::rng::{rand_unit, RandomSource};
use crate::trig::{tan_half_deg, tan_half_deg_spec, TAN_MAX};
use crate::vec3::{
    add_spec, bounded, cross, cross_spec, in_unit_disk, is_zero, lemma_cross_bounded, mul_vec_spec,
    neg_spec, normalize_spec, rand_in_unit_disk, scale_spec, sub_spec, unit_ish, Vec3, POS_B,
};
use vstd::arithmetic::div_mod::{
    lemma_div_is_ordered, lemma_div_pos_is_pos, lemma_fundamental_div_mod,
};
use vstd::prelude::*;

verus! {

/// Smallest accepted ray parameter while shading (about `0.001`), keeping a
/// freshly scattered ray from hitting its own surface.
pub const T_EPS: i64 = 66;

/// Sky gradient color at the zenith: `(0.5, 0.7, 1.0)`.
pub const SKY_R: i64 = 32768;

/// Green channel of the zenith color.
pub const SKY_G: i64 = 45875;

pub struct Camera {
    /// Ratio of image width over height.
    pub aspect_ratio: Fx,
    /// Rendered image width in pixel count.
    pub image_width: u32,
    /// Count of random samples for each pixel.
    pub samples_per_pixel: u32,
    /// Maximum number of ray bounces into the scene.
    pub max_depth: u32,
    /// Vertical view angle (field of view), in degrees.
    pub vfov: Fx,
    /// Point the camera is looking from.
    pub look_from: Vec3,
    /// Point the camera is looking at.
    pub look_at: Vec3,
    /// Camera-relative up direction.
    pub vup: Vec3,
    /// Variation angle of rays through each pixel, in degrees.
    pub defocus_angle: Fx,
    /// Distance from the camera to the plane of perfect focus.
    pub focus_dist: Fx,
    /// Rendered image height, derived once per render.
    pub image_height: u32,
    /// Color scale factor for a sum of pixel samples.
    pub pixel_samples_scale: Fx,
    /// Camera center.
    pub center: Vec3,
    /// Location of pixel `(0, 0)`.
    pub upper_left_pixel_loc: Vec3,
    /// Offset to the pixel to the right.
    pub pixel_delta_u: Vec3,
    /// Offset to the pixel below.
    pub pixel_delta_v: Vec3,
    /// Camera frame basis vector to the right.
    pub u: Vec3,
    /// Camera frame basis vector upward.
    pub v: Vec3,
    /// Camera frame basis vector against the view direction.
    pub w: Vec3,
    /// Defocus disk horizontal radius vector.
    pub defocus_disk_u: Vec3,
    /// Defocus disk vertical radius vector.
    pub defocus_disk_v: Vec3,
}

/// Each component of `v` floor-divided by the positive integer `k`.
pub open spec fn vdivk_spec(v: Vec3, k: int) -> Vec3 {
    Vec3 {
        x: Fx { raw: (v.x.raw as int / k) as i64 },
        y: Fx { raw: (v.y.raw as int / k) as i64 },
        z: Fx { raw: (v.z.raw as int / k) as i64 },
    }
}

/// The rendered image height: width over aspect ratio, floored.
pub open spec fn img_h_spec(c: Camera) -> int {
    (c.image_width as int * SCALE) / (c.aspect_ratio.raw as int)
}

/// The per-sample color scale `1 / samples_per_pixel`.
pub open spec fn sample_scale_spec(c: Camera) -> int {
    div_raw(SCALE as int, c.samples_per_pixel as int * SCALE)
}

/// Basis vector pointing from the target back to the camera.
pub open spec fn cam_w_spec(c: Camera) -> Vec3 {
    normalize_spec(sub_spec(c.look_from, c.look_at))
}

/// Basis vector pointing to the camera's right.
pub open spec fn cam_u_spec(c: Camera) -> Vec3 {
    normalize_spec(cross_spec(c.vup, cam_w_spec(c)))
}

/// Basis vector pointing up in the camera frame.
pub open spec fn cam_v_spec(c: Camera) -> Vec3 {
    cross_spec(cam_w_spec(c), cam_u_spec(c))
}

/// Viewport height: `2 * tan(vfov / 2) * focus_dist`.
pub open spec fn viewport_h_spec(c: Camera) -> int {
    mul_raw(2 * tan_half_deg_spec(c.vfov.raw as int), c.focus_dist.raw as int)
}

/// Viewport width: the height scaled by the pixel aspect ratio.
pub open spec fn viewport_w_spec(c: Camera) -> int {
    viewport_h_spec(c) * (c.image_width as int) / img_h_spec(c)
}

/// Vector across the viewport's horizontal edge.
pub open spec fn viewport_u_vec_spec(c: Camera) -> Vec3 {
    scale_spec(cam_u_spec(c), viewport_w_spec(c))
}

/// Vector down the viewport's vertical edge.
pub open spec fn viewport_v_vec_spec(c: Camera) -> Vec3 {
    scale_spec(neg_spec(cam_v_spec(c)), viewport_h_spec(c))
}

/// Offset from one pixel to the next to the right.
pub open spec fn pdu_spec(c: Camera) -> Vec3 {
    vdivk_spec(viewport_u_vec_spec(c), c.image_width as int)
}

/// Offset from one pixel to the next below.
pub open spec fn pdv_spec(c: Camera) -> Vec3 {
    vdivk_spec(viewport_v_vec_spec(c), img_h_spec(c))
}

/// The viewport's upper-left corner.
pub open spec fn vul_spec(c: Camera) -> Vec3 {
    sub_spec(
        sub_spec(
            sub_spec(c.look_from, scale_spec(cam_w_spec(c), c.focus_dist.raw as int)),
            vdivk_spec(viewport_u_vec_spec(c), 2),
        ),
        vdivk_spec(viewport_v_vec_spec(c), 2),
    )
}

/// The location of pixel `(0, 0)`: half a pixel in from the corner.
pub open spec fn ulp_spec(c: Camera) -> Vec3 {
    add_spec(
        vul_spec(c),
        scale_spec(add_spec(pdu_spec(c), pdv_spec(c)), HALF_RAW as int),
    )
}

/// Radius of the defocus disk: `focus_dist * tan(defocus_angle / 2)`.
pub open spec fn defocus_radius_spec(c: Camera) -> int {
    mul_raw(c.focus_dist.raw as int, tan_half_deg_spec(c.defocus_angle.raw as int))
}

/// Horizontal radius vector of the defocus disk.
pub open spec fn ddu_spec(c: Camera) -> Vec3 {
    scale_spec(cam_u_spec(c), defocus_radius_spec(c))
}

/// Vertical radius vector of the defocus disk.
pub open spec fn ddv_spec(c: Camera) -> Vec3 {
    scale_spec(cam_v_spec(c), defocus_radius_spec(c))
}

/// A well-formed configuration: positive aspect ratio, an image of at least
/// two rows, angles within a half turn, bounded positions, a view direction
/// and an up direction that span a frame, and a viewport of bounded width.
pub open spec fn cam_wf(c: Camera) -> bool {
    &&& c.aspect_ratio.raw > 0
    &&& 1 <= c.image_width <= 4096
    &&& 2 <= img_h_spec(c) <= 4096
    &&& 1 <= c.samples_per_pixel <= 65536
    &&& 0 <= c.vfov.raw < 180 * SCALE
    &&& bounded(c.look_from, 0x100_0000)
    &&& bounded(c.look_at, 0x100_0000)
    &&& bounded(c.vup, 0x10_0000)
    &&& !is_zero(sub_spec(c.look_from, c.look_at))
    &&& !is_zero(cross_spec(c.vup, cam_w_spec(c)))
    &&& 0 <= c.defocus_angle.raw < 180 * SCALE
    &&& 0 < c.focus_dist.raw <= 0x40_0000
    &&& -0x200_0000 <= viewport_w_spec(c) <= 0x200_0000
}

/// The derived state matches its formulas over the configuration, with the
/// bounds every user of the state needs.
pub open spec fn derived_ok(c: Camera) -> bool {
    &&& cam_wf(c)
    &&& c.image_height as int == img_h_spec(c)
    &&& c.pixel_samples_scale.raw as int == sample_scale_spec(c)
    &&& c.center == c.look_from
    &&& c.w == cam_w_spec(c)
    &&& c.u == cam_u_spec(c)
    &&& c.v == cam_v_spec(c)
    &&& c.pixel_delta_u == pdu_spec(c)
    &&& c.pixel_delta_v == pdv_spec(c)
    &&& c.upper_left_pixel_loc == ulp_spec(c)
    &&& c.defocus_disk_u == ddu_spec(c)
    &&& c.defocus_disk_v == ddv_spec(c)
    &&& unit_ish(c.w)
    &&& unit_ish(c.u)
    &&& bounded(c.v, 2 * SCALE + 1)
    &&& bounded(viewport_u_vec_spec(c), 0x200_0001)
    &&& bounded(viewport_v_vec_spec(c), 0x400_0201)
    &&& bounded(c.pixel_delta_u, 0x200_0001)
    &&& bounded(c.pixel_delta_v, 0x400_0201)
    &&& bounded(c.upper_left_pixel_loc, 0xA40_0400)
    &&& bounded(c.defocus_disk_u, 0x100_0001)
    &&& bounded(c.defocus_disk_v, 0x200_0101)
}

/// The sky gradient: linear interpolation between white at the horizon and
/// sky blue at the zenith, driven by the normalized direction's height.
pub open spec fn sky_color_spec(dir: Vec3) -> Vec3 {
    let u = normalize_spec(dir);
    let t = mul_raw(u.y.raw + SCALE, HALF_RAW as int);
    Vec3 {
        x: Fx { raw: (mul_raw(SCALE as int, SCALE - t) + mul_raw(SKY_R as int, t)) as i64 },
        y: Fx { raw: (mul_raw(SCALE as int, SCALE - t) + mul_raw(SKY_G as int, t)) as i64 },
        z: Fx { raw: (mul_raw(SCALE as int, SCALE - t) + mul_raw(SCALE as int, t)) as i64 },
    }
}

/// The camera ray for pixel `(i, j)`, given the jitter offset and the lens
/// sample: from the camera center (or the sampled lens point when defocus is
/// on) toward the jittered pixel location; a degenerate zero direction falls
/// back to the camera's forward axis.
pub open spec fn ray_for_spec(c: Camera, i: u32, j: u32, off: Vec3, lens: Vec3) -> Ray {
    let cu = i as int * SCALE + off.x.raw;
    let cv = j as int * SCALE + off.y.raw;
    let sample = add_spec(
        add_spec(ulp_spec(c), scale_spec(pdu_spec(c), cu)),
        scale_spec(pdv_spec(c), cv),
    );
    let origin = if c.defocus_angle.raw <= 0 {
        c.center
    } else {
        add_spec(
            add_spec(c.center, scale_spec(ddu_spec(c), lens.x.raw as int)),
            scale_spec(ddv_spec(c), lens.y.raw as int),
        )
    };
    let rawdir = sub_spec(sample, origin);
    let dir = if is_zero(rawdir) {
        neg_spec(cam_w_spec(c))
    } else {
        rawdir
    };
    Ray { origin, direction: dir }
}

/// One pixel step along a pixel-delta vector stays within the viewport
/// bound: the delta is the viewport edge divided by the pixel count, and the
/// coefficient runs over at most that count of pixels.
proof fn lemma_pixel_step(vu: int, wdt: int, cu: int, vb: int)
    requires
        1 <= wdt <= 4096,
        0 <= vb,
        -vb <= vu <= vb,
        -(wdt * SCALE) <= cu <= wdt * SCALE,
    ensures
        -(vb + 4098) <= mul_raw(vu / wdt, cu) <= vb + 4098,
{
    let q = vu / wdt;
    lemma_fundamental_div_mod(vu, wdt);
    let rm = vu % wdt;
    assert(wdt * q == vu - rm);
    let m0 = vb + 4097;
    assert(-m0 <= q * wdt <= m0) by (nonlinear_arith)
        requires
            wdt * q == vu - rm,
            0 <= rm < wdt,
            -vb <= vu <= vb,
            wdt <= 4096,
            m0 == vb + 4097,
    ;
    lemma_mul_bound(q * wdt, cu, m0, wdt * SCALE);
    assert((q * wdt) * cu == (q * cu) * wdt) by (nonlinear_arith);
    assert(m0 * (wdt * SCALE) == (m0 * SCALE) * wdt) by (nonlinear_arith);
    assert(-(m0 * SCALE) <= q * cu <= m0 * SCALE) by (nonlinear_arith)
        requires
            -((m0 * SCALE) * wdt) <= (q * cu) * wdt <= (m0 * SCALE) * wdt,
            wdt >= 1,
            m0 * SCALE >= 0,
    ;
    lemma_div_is_ordered(q * cu, m0 * SCALE, SCALE as int);
    lemma_div_is_ordered(-(m0 * SCALE), q * cu, SCALE as int);
    vstd::arithmetic::div_mod::lemma_div_multiples_vanish(m0, SCALE as int);
    assert(m0 * SCALE == SCALE as int * m0) by (nonlinear_arith);
    crate::fixed::lemma_div_neg(m0 * SCALE, SCALE as int);
}

impl Camera {
    /// A camera with every configuration field given; derived state is
    /// filled in by `initialize` (or `render`).
    pub fn new(
        aspect_ratio: Fx,
        image_width: u32,
        samples_per_pixel: u32,
        max_depth: u32,
        vfov: Fx,
        look_from: Vec3,
        look_at: Vec3,
        vup: Vec3,
        defocus_angle: Fx,
        focus_dist: Fx,
    ) -> (r: Camera)
        ensures
            r.aspect_ratio == aspect_ratio,
            r.image_width == image_width,
            r.samples_per_pixel == samples_per_pixel,
            r.max_depth == max_depth,
            r.vfov == vfov,
            r.look_from == look_from,
            r.look_at == look_at,
            r.vup == vup,
            r.defocus_angle == defocus_angle,
            r.focus_dist == focus_dist,
            r.image_height == 0,
            r.pixel_samples_scale.raw == 0,
            r.center == (Vec3 { x: Fx { raw: 0 }, y: Fx { raw: 0 }, z: Fx { raw: 0 } }),
            r.upper_left_pixel_loc == (Vec3 { x: Fx { raw: 0 }, y: Fx { raw: 0 }, z: Fx { raw: 0 } }),
            r.pixel_delta_u == (Vec3 { x: Fx { raw: 0 }, y: Fx { raw: 0 }, z: Fx { raw: 0 } }),
            r.pixel_delta_v == (Vec3 { x: Fx { raw: 0 }, y: Fx { raw: 0 }, z: Fx { raw: 0 } }),
            r.u == (Vec3 { x: Fx { raw: 0 }, y: Fx { raw: 0 }, z: Fx { raw: 0 } }),
            r.v == (Vec3 { x: Fx { raw: 0 }, y: Fx { raw: 0 }, z: Fx { raw: 0 } }),
            r.w == (Vec3 { x: Fx { raw: 0 }, y: Fx { raw: 0 }, z: Fx { raw: 0 } }),
            r.defocus_disk_u == (Vec3 { x: Fx { raw: 0 }, y: Fx { raw: 0 }, z: Fx { raw: 0 } }),
            r.defocus_disk_v == (Vec3 { x: Fx { raw: 0 }, y: Fx { raw: 0 }, z: Fx { raw: 0 } }),
    {
        Camera {
            aspect_ratio,
            image_width,
            samples_per_pixel,
            max_depth,
            vfov,
            look_from,
            look_at,
            vup,
            defocus_angle,
            focus_dist,
            image_height: 0,
            pixel_samples_scale: Fx { raw: 0 },
            center: Vec3::zero(),
            upper_left_pixel_loc: Vec3::zero(),
            pixel_delta_u: Vec3::zero(),
            pixel_delta_v: Vec3::zero(),
            u: Vec3::zero(),
            v: Vec3::zero(),
            w: Vec3::zero(),
            defocus_disk_u: Vec3::zero(),
            defocus_disk_v: Vec3::zero(),
        }
    }

    /// Whether the configuration satisfies every render precondition.
    pub fn config_ok(&self) -> (r: bool)
        ensures
            r == cam_wf(*self),
    {
        if !(self.aspect_ratio.raw > 0 && 1 <= self.image_width && self.image_width <= 4096) {
            return false;
        }
        proof {
            lemma_mul_bound(self.image_width as int, SCALE as int, 4096, SCALE as int);
        }
        let ih = floor_div_i128(
            (self.image_width as i128) * (SCALE as i128),
            self.aspect_ratio.raw as i128,
        );
        if !(2 <= ih && ih <= 4096) {
            return false;
        }
        if !(1 <= self.samples_per_pixel && self.samples_per_pixel <= 65536) {
            return false;
        }
        if !(0 <= self.vfov.raw && self.vfov.raw < 180 * SCALE) {
            return false;
        }
        let cb = Fx { raw: 0x100_0000 };
        let vb = Fx { raw: 0x10_0000 };
        if !(in_box(&self.look_from, cb) && in_box(&self.look_at, cb) && in_box(&self.vup, vb)) {
            return false;
        }
        let gaze = self.look_from.sub(self.look_at);
        if gaze.near_zero() {
            return false;
        }
        let w = gaze.normalize();
        let cu = cross(&self.vup, &w);
        if cu.near_zero() {
            return false;
        }
        if !(0 <= self.defocus_angle.raw && self.defocus_angle.raw < 180 * SCALE) {
            return false;
        }
        if !(0 < self.focus_dist.raw && self.focus_dist.raw <= 0x40_0000) {
            return false;
        }
        let h = tan_half_deg(self.vfov);
        proof {
            lemma_mul_raw_bound(
                h.raw + h.raw,
                self.focus_dist.raw as int,
                2 * TAN_MAX as int,
                0x40_0000,
            );
        }
        let vh = Fx { raw: h.raw + h.raw }.mul(self.focus_dist);
        proof {
            lemma_mul_bound(vh.raw as int, self.image_width as int, 0x200_0001, 4096);
        }
        let vw = floor_div_i128((vh.raw as i128) * (self.image_width as i128), ih);
        -0x200_0000 <= vw && vw <= 0x200_0000
    }

    /// Compute every derived field from the configuration. Run once at the
    /// start of every render.
    #[verifier::rlimit(60)]
    pub fn initialize(&mut self)
        requires
            cam_wf(*old(self)),
        ensures
            derived_ok(*final(self)),
            final(self).aspect_ratio == old(self).aspect_ratio,
            final(self).image_width == old(self).image_width,
            final(self).samples_per_pixel == old(self).samples_per_pixel,
            final(self).max_depth == old(self).max_depth,
            final(self).vfov == old(self).vfov,
            final(self).look_from == old(self).look_from,
            final(self).look_at == old(self).look_at,
            final(self).vup == old(self).vup,
            final(self).defocus_angle == old(self).defocus_angle,
            final(self).focus_dist == old(self).focus_dist,
    {
        proof {
            lemma_mul_bound(self.image_width as int, SCALE as int, 4096, SCALE as int);
        }
        let ih = floor_div_i128(
            (self.image_width as i128) * (SCALE as i128),
            self.aspect_ratio.raw as i128,
        );
        self.image_height = ih as u32;

        proof {
            lemma_div_bound(
                SCALE as int * SCALE,
                self.samples_per_pixel as int * SCALE,
                0x1_0000_0000,
            );
            assert(self.samples_per_pixel as int * SCALE >= SCALE) by (nonlinear_arith)
                requires
                    self.samples_per_pixel >= 1,
                    SCALE > 0,
            ;
        }
        self.pixel_samples_scale = Fx::one().div(Fx::from_int(self.samples_per_pixel as i32));

        self.center = self.look_from;

        let h = tan_half_deg(self.vfov);
        proof {
            lemma_mul_raw_bound(
                h.raw + h.raw,
                self.focus_dist.raw as int,
                2 * TAN_MAX as int,
                0x40_0000,
            );
            assert((h.raw + h.raw) * self.focus_dist.raw >= 0) by (nonlinear_arith)
                requires
                    h.raw >= 0,
                    self.focus_dist.raw > 0,
            ;
            lemma_div_pos_is_pos((h.raw + h.raw) * self.focus_dist.raw, SCALE as int);
        }
        let vh = Fx { raw: h.raw + h.raw }.mul(self.focus_dist);
        proof {
            lemma_mul_bound(vh.raw as int, self.image_width as int, 0x200_0001, 4096);
        }
        let vw128 = floor_div_i128((vh.raw as i128) * (self.image_width as i128), ih);
        let vw = Fx { raw: vw128 as i64 };

        let gaze = self.look_from.sub(self.look_at);
        self.w = gaze.normalize();
        let cu = cross(&self.vup, &self.w);
        proof {
            lemma_cross_bounded(self.vup, self.w, 0x10_0000, SCALE as int);
        }
        self.u = cu.normalize();
        proof {
            lemma_cross_bounded(self.w, self.u, SCALE as int, SCALE as int);
        }
        self.v = cross(&self.w, &self.u);

        proof {
            lemma_mul_raw_bound(self.u.x.raw as int, vw.raw as int, SCALE as int, 0x200_0000);
            lemma_mul_raw_bound(self.u.y.raw as int, vw.raw as int, SCALE as int, 0x200_0000);
            lemma_mul_raw_bound(self.u.z.raw as int, vw.raw as int, SCALE as int, 0x200_0000);
        }
        let viewport_u = self.u.scale(vw);
        let nv = self.v.neg();
        proof {
            lemma_mul_raw_bound(nv.x.raw as int, vh.raw as int, 2 * SCALE as int + 1, 0x200_0000);
            lemma_mul_raw_bound(nv.y.raw as int, vh.raw as int, 2 * SCALE as int + 1, 0x200_0000);
            lemma_mul_raw_bound(nv.z.raw as int, vh.raw as int, 2 * SCALE as int + 1, 0x200_0000);
        }
        let viewport_v = nv.scale(vh);

        proof {
            lemma_vdivk_bound(viewport_u, self.image_width as int, 0x200_0001);
            lemma_vdivk_bound(viewport_v, self.image_height as int, 0x400_0201);
            lemma_vdivk_bound(viewport_u, 2, 0x200_0001);
            lemma_vdivk_bound(viewport_v, 2, 0x400_0201);
        }
        self.pixel_delta_u = vdivk(viewport_u, self.image_width as i128);
        self.pixel_delta_v = vdivk(viewport_v, self.image_height as i128);

        proof {
            lemma_mul_raw_bound(self.w.x.raw as int, self.focus_dist.raw as int, SCALE as int, 0x40_0000);
            lemma_mul_raw_bound(self.w.y.raw as int, self.focus_dist.raw as int, SCALE as int, 0x40_0000);
            lemma_mul_raw_bound(self.w.z.raw as int, self.focus_dist.raw as int, SCALE as int, 0x40_0000);
        }
        let vul = self.center.sub(self.w.scale(self.focus_dist)).sub(vdivk(viewport_u, 2)).sub(
            vdivk(viewport_v, 2),
        );
        let pdsum = self.pixel_delta_u.add(self.pixel_delta_v);
        proof {
            lemma_mul_raw_bound(pdsum.x.raw as int, HALF_RAW as int, 0x600_0202, HALF_RAW as int);
            lemma_mul_raw_bound(pdsum.y.raw as int, HALF_RAW as int, 0x600_0202, HALF_RAW as int);
            lemma_mul_raw_bound(pdsum.z.raw as int, HALF_RAW as int, 0x600_0202, HALF_RAW as int);
        }
        self.upper_left_pixel_loc = vul.add(pdsum.scale(Fx { raw: HALF_RAW }));

        let td = tan_half_deg(self.defocus_angle);
        proof {
            lemma_mul_raw_bound(self.focus_dist.raw as int, td.raw as int, 0x40_0000, TAN_MAX as int);
        }
        let defocus_radius = self.focus_dist.mul(td);
        proof {
            lemma_mul_raw_bound(self.u.x.raw as int, defocus_radius.raw as int, SCALE as int, 0x100_0000);
            lemma_mul_raw_bound(self.u.y.raw as int, defocus_radius.raw as int, SCALE as int, 0x100_0000);
            lemma_mul_raw_bound(self.u.z.raw as int, defocus_radius.raw as int, SCALE as int, 0x100_0000);
            lemma_mul_raw_bound(self.v.x.raw as int, defocus_radius.raw as int, 2 * SCALE as int + 1, 0x100_0000);
            lemma_mul_raw_bound(self.v.y.raw as int, defocus_radius.raw as int, 2 * SCALE as int + 1, 0x100_0000);
            lemma_mul_raw_bound(self.v.z.raw as int, defocus_radius.raw as int, 2 * SCALE as int + 1, 0x100_0000);
        }
        self.defocus_disk_u = self.u.scale(defocus_radius);
        self.defocus_disk_v = self.v.scale(defocus_radius);
    }
}

/// Componentwise test against a symmetric box.
fn in_box(v: &Vec3, b: Fx) -> (r: bool)
    requires
        b.raw >= 0,
    ensures
        r == bounded(*v, b.raw as int),
{
    -b.raw <= v.x.raw && v.x.raw <= b.raw && -b.raw <= v.y.raw && v.y.raw <= b.raw && -b.raw
        <= v.z.raw && v.z.raw <= b.raw
}

/// Floor-divide each component by a positive integer.
fn vdivk(v: Vec3, k: i128) -> (r: Vec3)
    requires
        0 < k <= 0x1_0000_0000,
        bounded(v, 0x7fff_ffff_ffff),
    ensures
        r == vdivk_spec(v, k as int),
{
    proof {
        lemma_vdivk_bound(v, k as int, 0x7fff_ffff_ffff);
    }
    let x = floor_div_i128(v.x.raw as i128, k);
    let y = floor_div_i128(v.y.raw as i128, k);
    let z = floor_div_i128(v.z.raw as i128, k);
    Vec3 { x: Fx { raw: x as i64 }, y: Fx { raw: y as i64 }, z: Fx { raw: z as i64 } }
}

/// Floor division by a positive integer keeps each component's bound.
proof fn lemma_vdivk_bound(v: Vec3, k: int, b: int)
    requires
        k > 0,
        0 <= b,
        bounded(v, b),
    ensures
        bounded(vdivk_spec(v, k), b),
        -b <= v.x.raw as int / k <= b,
        -b <= v.y.raw as int / k <= b,
        -b <= v.z.raw as int / k <= b,
{
    lemma_div_bound(v.x.raw as int, k, b);
    lemma_div_bound(v.y.raw as int, k, b);
    lemma_div_bound(v.z.raw as int, k, b);
}

/// A point of the defocus disk, from a unit-disk sample.
pub open spec fn disk_at_spec(c: Camera, p: Vec3) -> Vec3 {
    add_spec(
        add_spec(c.center, scale_spec(ddu_spec(c), p.x.raw as int)),
        scale_spec(ddv_spec(c), p.y.raw as int),
    )
}

/// An admissible pixel jitter: a point of the half-open unit square around a
/// pixel center.
pub open spec fn offset_sample_ok(off: Vec3) -> bool {
    &&& -HALF_RAW <= off.x.raw < HALF_RAW
    &&& -HALF_RAW <= off.y.raw < HALF_RAW
    &&& off.z.raw == 0
}

/// The shading of a hit: some admissible scatter outcome of the struck
/// material, with black on absorption and otherwise the outcome's
/// attenuation times an in-unit recursive estimate.
pub open spec fn hit_shade_ok(h: HitRecord, r: Ray, c: Vec3) -> bool {
    exists|out: Option<ScatterResult>|
        {
            &&& #[trigger] scatter_outcome_ok(h.mat, r, h, out)
            &&& match out {
                None => c == (Vec3 { x: Fx { raw: 0 }, y: Fx { raw: 0 }, z: Fx { raw: 0 } }),
                Some(sc) => exists|rest: Vec3|
                    color_in_unit(rest) && c == #[trigger] mul_vec_spec(sc.attenuation, rest),
            }
        }
}

/// Everything `ray_color` promises of its result: channels in the unit
/// range; exact black at depth zero; the exact sky gradient on a miss; exact
/// black when the depth budget ends at a hit; and on any hit, the shading
/// decomposition of `hit_shade_ok`.
pub open spec fn ray_color_ok(world: HittableList, r: Ray, depth: u32, c: Vec3) -> bool {
    &&& color_in_unit(c)
    &&& depth == 0 ==> c == (Vec3 { x: Fx { raw: 0 }, y: Fx { raw: 0 }, z: Fx { raw: 0 } })
    &&& depth > 0 && list_hit_spec(world.objects@, r, T_EPS as int, i64::MAX as int) is None ==> c
        == sky_color_spec(r.direction)
    &&& depth == 1 && list_hit_spec(world.objects@, r, T_EPS as int, i64::MAX as int) is Some ==> c
        == (Vec3 { x: Fx { raw: 0 }, y: Fx { raw: 0 }, z: Fx { raw: 0 } })
    &&& depth > 0 ==> match list_hit_spec(world.objects@, r, T_EPS as int, i64::MAX as int) {
        Some(h) => hit_shade_ok(h, r, c),
        None => true,
    }
}

/// One admissible per-sample color at pixel `(i, j)`: the shading of a
/// camera ray built from some admissible jitter and lens draw.
pub open spec fn sample_color_ok(c: Camera, world: HittableList, i: u32, j: u32, col: Vec3) -> bool {
    exists|off: Vec3, lens: Vec3|
        {
            &&& offset_sample_ok(off)
            &&& in_unit_disk(lens)
            &&& ray_color_ok(world, #[trigger] ray_for_spec(c, i, j, off, lens), c.max_depth, col)
        }
}

/// A sum of `n` admissible per-sample colors for pixel `(i, j)`.
pub open spec fn sample_sum_ok(
    c: Camera,
    world: HittableList,
    i: u32,
    j: u32,
    acc: Vec3,
    n: nat,
) -> bool
    decreases n,
{
    if n == 0 {
        acc == (Vec3 { x: Fx { raw: 0 }, y: Fx { raw: 0 }, z: Fx { raw: 0 } })
    } else {
        exists|prev: Vec3, col: Vec3|
            {
                &&& sample_sum_ok(c, world, i, j, prev, (n - 1) as nat)
                &&& sample_color_ok(c, world, i, j, col)
                &&& acc == #[trigger] add_spec(prev, col)
            }
    }
}

/// A finished pixel: an admissible sample sum scaled by `1 / samples`.
pub open spec fn pixel_ok(c: Camera, world: HittableList, i: u32, j: u32, px: Vec3) -> bool {
    exists|acc: Vec3|
        {
            &&& #[trigger] sample_sum_ok(c, world, i, j, acc, c.samples_per_pixel as nat)
            &&& px == scale_spec(acc, sample_scale_spec(c))
        }
}

impl Camera {
    /// A random jitter offset in the half-open unit square around a pixel
    /// center.
    pub fn sample_square(rng: &mut RandomSource) -> (r: Vec3)
        ensures
            -HALF_RAW <= r.x.raw < HALF_RAW,
            -HALF_RAW <= r.y.raw < HALF_RAW,
            r.z.raw == 0,
    {
        let x = rand_unit(rng);
        let y = rand_unit(rng);
        Vec3 {
            x: Fx { raw: x.raw - HALF_RAW },
            y: Fx { raw: y.raw - HALF_RAW },
            z: Fx { raw: 0 },
        }
    }

    /// A random point of the camera's defocus disk.
    pub fn defocus_disk_sample(&self, rng: &mut RandomSource) -> (r: Vec3)
        requires
            derived_ok(*self),
        ensures
            bounded(r, POS_B as int),
            exists|p: Vec3| in_unit_disk(p) && r == #[trigger] disk_at_spec(*self, p),
    {
        let p = rand_in_unit_disk(rng);
        proof {
            lemma_disk_at_bounds(*self, p);
        }
        let r = self.center.add(self.defocus_disk_u.scale(p.x)).add(
            self.defocus_disk_v.scale(p.y),
        );
        proof {
            assert(in_unit_disk(p) && r == disk_at_spec(*self, p));
        }
        r
    }

    /// The camera ray for pixel `(i, j)` with the given jitter offset and
    /// lens sample. Pure: every draw is an argument.
    pub fn ray_for(&self, i: u32, j: u32, offset: Vec3, lens: Vec3) -> (r: Ray)
        requires
            derived_ok(*self),
            i < self.image_width,
            j < self.image_height,
            -HALF_RAW <= offset.x.raw <= HALF_RAW,
            -HALF_RAW <= offset.y.raw <= HALF_RAW,
            bounded(lens, SCALE as int),
        ensures
            r == ray_for_spec(*self, i, j, offset, lens),
            ray_wf(r),
    {
        let cu = Fx { raw: (i as i64) * SCALE + offset.x.raw };
        let cv = Fx { raw: (j as i64) * SCALE + offset.y.raw };
        proof {
            let c = *self;
            lemma_vdivk_bound(viewport_u_vec_spec(c), c.image_width as int, 0x200_0001);
            lemma_vdivk_bound(viewport_v_vec_spec(c), img_h_spec(c), 0x400_0201);
            lemma_pixel_step(
                viewport_u_vec_spec(c).x.raw as int,
                c.image_width as int,
                cu.raw as int,
                0x200_0001,
            );
            lemma_pixel_step(
                viewport_u_vec_spec(c).y.raw as int,
                c.image_width as int,
                cu.raw as int,
                0x200_0001,
            );
            lemma_pixel_step(
                viewport_u_vec_spec(c).z.raw as int,
                c.image_width as int,
                cu.raw as int,
                0x200_0001,
            );
            lemma_pixel_step(
                viewport_v_vec_spec(c).x.raw as int,
                img_h_spec(c),
                cv.raw as int,
                0x400_0201,
            );
            lemma_pixel_step(
                viewport_v_vec_spec(c).y.raw as int,
                img_h_spec(c),
                cv.raw as int,
                0x400_0201,
            );
            lemma_pixel_step(
                viewport_v_vec_spec(c).z.raw as int,
                img_h_spec(c),
                cv.raw as int,
                0x400_0201,
            );
        }
        let su = self.pixel_delta_u.scale(cu);
        let sv = self.pixel_delta_v.scale(cv);
        let sample = self.upper_left_pixel_loc.add(su).add(sv);
        let origin = if self.defocus_angle.raw <= 0 {
            self.center
        } else {
            proof {
                lemma_disk_at_bounds(*self, lens);
            }
            self.center.add(self.defocus_disk_u.scale(lens.x)).add(
                self.defocus_disk_v.scale(lens.y),
            )
        };
        let rawdir = sample.sub(origin);
        let dir = if rawdir.near_zero() {
            self.w.neg()
        } else {
            rawdir
        };
        Ray { origin, direction: dir }
    }

    /// The camera ray for pixel `(i, j)`: jitter and lens point drawn from
    /// the random source.
    pub fn get_ray(&self, i: u32, j: u32, rng: &mut RandomSource) -> (r: Ray)
        requires
            derived_ok(*self),
            i < self.image_width,
            j < self.image_height,
        ensures
            ray_wf(r),
            exists|off: Vec3, lens: Vec3|
                {
                    &&& offset_sample_ok(off)
                    &&& in_unit_disk(lens)
                    &&& r == #[trigger] ray_for_spec(*self, i, j, off, lens)
                },
    {
        let offset = Self::sample_square(rng);
        let lens = rand_in_unit_disk(rng);
        let r = self.ray_for(i, j, offset, lens);
        proof {
            assert(offset_sample_ok(offset) && in_unit_disk(lens) && r == ray_for_spec(
                *self,
                i,
                j,
                offset,
                lens,
            ));
        }
        r
    }

    /// Radiance along one ray: black at the depth limit; on a hit, the
    /// material's attenuation times the scattered ray's radiance (black on
    /// absorption); on a miss, the sky gradient.
    pub fn ray_color(&self, r: &Ray, depth: u32, world: &HittableList, rng: &mut RandomSource) -> (c:
        Vec3)
        requires
            list_wf(*world),
            ray_wf(*r),
        ensures
            ray_color_ok(*world, *r, depth, c),
        decreases depth,
    {
        if depth == 0 {
            return Vec3::zero();
        }
        let mut rec = HitRecord {
            front_face: false,
            mat: Material::Lambertian { albedo: Vec3::zero() },
            normal: Vec3 { x: Fx { raw: 0 }, y: Fx { raw: 0 }, z: Fx { raw: SCALE } },
            p: Vec3::zero(),
            t: Fx { raw: 0 },
        };
        if world.hit(r, Interval::new(Fx { raw: T_EPS }, Fx { raw: i64::MAX }), &mut rec) {
            let outcome = rec.mat.scatter(r, &rec, rng);
            match outcome {
                Some(sc) => {
                    let col = self.ray_color(&sc.scattered, depth - 1, world, rng);
                    proof {
                        lemma_mul_raw_unit(sc.attenuation.x.raw as int, col.x.raw as int);
                        lemma_mul_raw_unit(sc.attenuation.y.raw as int, col.y.raw as int);
                        lemma_mul_raw_unit(sc.attenuation.z.raw as int, col.z.raw as int);
                    }
                    let shaded = sc.attenuation.mul_vec(col);
                    proof {
                        assert(color_in_unit(col) && shaded == mul_vec_spec(sc.attenuation, col));
                        assert(hit_shade_ok(rec, *r, shaded));
                    }
                    shaded
                },
                None => {
                    let black = Vec3::zero();
                    proof {
                        assert(hit_shade_ok(rec, *r, black));
                    }
                    black
                },
            }
        } else {
            let unit = r.direction.normalize();
            proof {
                lemma_half_blend(unit.y.raw as int);
            }
            let t = Fx { raw: unit.y.raw + SCALE }.mul(Fx { raw: HALF_RAW });
            let omt = Fx::one().sub(t);
            let white = Vec3 { x: Fx { raw: SCALE }, y: Fx { raw: SCALE }, z: Fx { raw: SCALE } };
            let blue = Vec3 { x: Fx { raw: SKY_R }, y: Fx { raw: SKY_G }, z: Fx { raw: SCALE } };
            proof {
                lemma_mul_raw_unit(SCALE as int, omt.raw as int);
                lemma_mul_raw_unit(SKY_R as int, t.raw as int);
                lemma_mul_raw_unit(SKY_G as int, t.raw as int);
                lemma_mul_raw_unit(SCALE as int, t.raw as int);
            }
            let horizon = white.scale(omt);
            let zenith = blue.scale(t);
            horizon.add(zenith)
        }
    }

    /// Render the scene: initialize the derived state, then for each pixel
    /// in row-major order average `samples_per_pixel` jittered ray colors.
    /// The configuration is untouched; each pixel is the scaled sum of that
    /// many admissible per-sample colors for its own coordinates, and every
    /// channel lies in `[0, 1]`.
    pub fn render(&mut self, world: &HittableList, rng: &mut RandomSource) -> (pixels: Vec<Vec3>)
        requires
            cam_wf(*old(self)),
            list_wf(*world),
        ensures
            derived_ok(*final(self)),
            final(self).aspect_ratio == old(self).aspect_ratio,
            final(self).image_width == old(self).image_width,
            final(self).samples_per_pixel == old(self).samples_per_pixel,
            final(self).max_depth == old(self).max_depth,
            final(self).vfov == old(self).vfov,
            final(self).look_from == old(self).look_from,
            final(self).look_at == old(self).look_at,
            final(self).vup == old(self).vup,
            final(self).defocus_angle == old(self).defocus_angle,
            final(self).focus_dist == old(self).focus_dist,
            pixels@.len() == (final(self).image_height as int) * (final(self).image_width as int),
            forall|k: int| 0 <= k < pixels@.len() ==> color_in_unit(#[trigger] pixels@[k]),
            forall|k: int|
                0 <= k < pixels@.len() ==> pixel_ok(
                    *final(self),
                    *world,
                    (k % (final(self).image_width as int)) as u32,
                    (k / (final(self).image_width as int)) as u32,
                    #[trigger] pixels@[k],
                ),
    {
        self.initialize();
        let ghost cam0 = *self;
        let wdt = self.image_width;
        let hgt = self.image_height;
        proof {
            lemma_mul_bound(wdt as int, hgt as int, 4096, 4096);
        }
        let total = wdt * hgt;
        let mut pixels: Vec<Vec3> = Vec::new();
        let mut pix: u32 = 0;
        while pix < total
            invariant
                *self == cam0,
                derived_ok(*self),
                list_wf(*world),
                wdt == self.image_width,
                hgt == self.image_height,
                wdt >= 1,
                hgt >= 1,
                total == wdt as int * hgt as int,
                total <= 0x100_0000,
                pix <= total,
                pixels@.len() == pix as int,
                forall|k: int| 0 <= k < pixels@.len() ==> color_in_unit(#[trigger] pixels@[k]),
                forall|k: int|
                    0 <= k < pixels@.len() ==> pixel_ok(
                        cam0,
                        *world,
                        (k % (wdt as int)) as u32,
                        (k / (wdt as int)) as u32,
                        #[trigger] pixels@[k],
                    ),
            decreases total - pix,
        {
            let y = pix / wdt;
            let x = pix % wdt;
            proof {
                vstd::arithmetic::div_mod::lemma_multiply_divide_lt(
                    pix as int,
                    wdt as int,
                    hgt as int,
                );
                assert(wdt as int * hgt as int == hgt as int * wdt as int) by (nonlinear_arith);
            }
            let mut acc = Vec3::zero();
            let mut s: u32 = 0;
            while s < self.samples_per_pixel
                invariant
                    *self == cam0,
                    derived_ok(*self),
                    list_wf(*world),
                    x < self.image_width,
                    y < self.image_height,
                    s <= self.samples_per_pixel,
                    self.samples_per_pixel <= 65536,
                    0 <= acc.x.raw <= s as int * SCALE,
                    0 <= acc.y.raw <= s as int * SCALE,
                    0 <= acc.z.raw <= s as int * SCALE,
                    sample_sum_ok(cam0, *world, x, y, acc, s as nat),
                decreases self.samples_per_pixel - s,
            {
                let ray = self.get_ray(x, y, rng);
                let col = self.ray_color(&ray, self.max_depth, world, rng);
                let ghost prev = acc;
                acc = acc.add(col);
                proof {
                    let (off, lens) = choose|off: Vec3, lens: Vec3|
                        {
                            &&& offset_sample_ok(off)
                            &&& in_unit_disk(lens)
                            &&& ray == #[trigger] ray_for_spec(cam0, x, y, off, lens)
                        };
                    assert(ray_color_ok(
                        *world,
                        ray_for_spec(cam0, x, y, off, lens),
                        cam0.max_depth,
                        col,
                    ));
                    assert(sample_color_ok(cam0, *world, x, y, col));
                    assert(acc == add_spec(prev, col));
                    assert(sample_sum_ok(cam0, *world, x, y, acc, (s + 1) as nat));
                }
                s = s + 1;
            }
            proof {
                lemma_pixel_scale_bound(acc.x.raw as int, self.samples_per_pixel as int);
                lemma_pixel_scale_bound(acc.y.raw as int, self.samples_per_pixel as int);
                lemma_pixel_scale_bound(acc.z.raw as int, self.samples_per_pixel as int);
            }
            let px = acc.scale(self.pixel_samples_scale);
            proof {
                assert(px == scale_spec(acc, sample_scale_spec(cam0)));
                assert(pixel_ok(cam0, *world, x, y, px));
                assert(x as int == pix as int % (wdt as int));
                assert(y as int == pix as int / (wdt as int));
            }
            pixels.push(px);
            pix = pix + 1;
        }
        pixels
    }
}

/// A sampled defocus-disk point stays within the world bound, and each of
/// its two radius-vector contributions fits.
proof fn lemma_disk_at_bounds(c: Camera, p: Vec3)
    requires
        derived_ok(c),
        bounded(p, SCALE as int),
    ensures
        -0x100_0002 <= mul_raw(c.defocus_disk_u.x.raw as int, p.x.raw as int) <= 0x100_0002,
        -0x100_0002 <= mul_raw(c.defocus_disk_u.y.raw as int, p.x.raw as int) <= 0x100_0002,
        -0x100_0002 <= mul_raw(c.defocus_disk_u.z.raw as int, p.x.raw as int) <= 0x100_0002,
        -0x200_0102 <= mul_raw(c.defocus_disk_v.x.raw as int, p.y.raw as int) <= 0x200_0102,
        -0x200_0102 <= mul_raw(c.defocus_disk_v.y.raw as int, p.y.raw as int) <= 0x200_0102,
        -0x200_0102 <= mul_raw(c.defocus_disk_v.z.raw as int, p.y.raw as int) <= 0x200_0102,
{
    lemma_mul_raw_bound(c.defocus_disk_u.x.raw as int, p.x.raw as int, 0x100_0001, SCALE as int);
    lemma_mul_raw_bound(c.defocus_disk_u.y.raw as int, p.x.raw as int, 0x100_0001, SCALE as int);
    lemma_mul_raw_bound(c.defocus_disk_u.z.raw as int, p.x.raw as int, 0x100_0001, SCALE as int);
    lemma_mul_raw_bound(c.defocus_disk_v.x.raw as int, p.y.raw as int, 0x200_0101, SCALE as int);
    lemma_mul_raw_bound(c.defocus_disk_v.y.raw as int, p.y.raw as int, 0x200_0101, SCALE as int);
    lemma_mul_raw_bound(c.defocus_disk_v.z.raw as int, p.y.raw as int, 0x200_0101, SCALE as int);
}

/// The sky blend factor `(y + 1) / 2` of a unit-like height lies in `[0, 1]`.
proof fn lemma_half_blend(y: int)
    requires
        -SCALE <= y <= SCALE,
    ensures
        0 <= mul_raw(y + SCALE, HALF_RAW as int) <= SCALE,
{
    assert((y + SCALE) * HALF_RAW <= SCALE as int * SCALE) by (nonlinear_arith)
        requires
            -SCALE <= y <= SCALE,
    ;
    assert((y + SCALE) * HALF_RAW >= 0) by (nonlinear_arith)
        requires
            y + SCALE >= 0,
    ;
    lemma_div_pos_is_pos((y + SCALE) * HALF_RAW, SCALE as int);
    lemma_div_is_ordered((y + SCALE) * HALF_RAW, SCALE as int * SCALE, SCALE as int);
    vstd::arithmetic::div_mod::lemma_div_multiples_vanish(SCALE as int, SCALE as int);
    assert(SCALE as int * SCALE == (SCALE as int) * (SCALE as int));
}

impl Default for Camera {
    /// The starting configuration: a small 16:9 image with ten samples and
    /// ten bounces. The view fields are zeroed and must be set before a
    /// render (`config_ok` reports whether the result is usable).
    fn default() -> (r: Camera)
        ensures
            r.aspect_ratio.raw == 116508,
            r.image_width == 100,
            r.samples_per_pixel == 10,
            r.max_depth == 10,
            r.vfov.raw == 0,
            r.look_from == (Vec3 { x: Fx { raw: 0 }, y: Fx { raw: 0 }, z: Fx { raw: 0 } }),
            r.look_at == (Vec3 { x: Fx { raw: 0 }, y: Fx { raw: 0 }, z: Fx { raw: 0 } }),
            r.vup == (Vec3 { x: Fx { raw: 0 }, y: Fx { raw: 0 }, z: Fx { raw: 0 } }),
            r.defocus_angle.raw == 0,
            r.focus_dist.raw == 0,
            r.image_height == 0,
            r.pixel_samples_scale.raw == 0,
            r.center == (Vec3 { x: Fx { raw: 0 }, y: Fx { raw: 0 }, z: Fx { raw: 0 } }),
            r.upper_left_pixel_loc == (Vec3 { x: Fx { raw: 0 }, y: Fx { raw: 0 }, z: Fx { raw: 0 } }),
            r.pixel_delta_u == (Vec3 { x: Fx { raw: 0 }, y: Fx { raw: 0 }, z: Fx { raw: 0 } }),
            r.pixel_delta_v == (Vec3 { x: Fx { raw: 0 }, y: Fx { raw: 0 }, z: Fx { raw: 0 } }),
            r.u == (Vec3 { x: Fx { raw: 0 }, y: Fx { raw: 0 }, z: Fx { raw: 0 } }),
            r.v == (Vec3 { x: Fx { raw: 0 }, y: Fx { raw: 0 }, z: Fx { raw: 0 } }),
            r.w == (Vec3 { x: Fx { raw: 0 }, y: Fx { raw: 0 }, z: Fx { raw: 0 } }),
            r.defocus_disk_u == (Vec3 { x: Fx { raw: 0 }, y: Fx { raw: 0 }, z: Fx { raw: 0 } }),
            r.defocus_disk_v == (Vec3 { x: Fx { raw: 0 }, y: Fx { raw: 0 }, z: Fx { raw: 0 } }),
    {
        Camera::new(
            Fx { raw: 116508 },
            100,
            10,
            10,
            Fx { raw: 0 },
            Vec3::zero(),
            Vec3::zero(),
            Vec3::zero(),
            Fx { raw: 0 },
            Fx { raw: 0 },
        )
    }
}

} // verus!
