//! Material scattering: diffuse, metal and dielectric models.
//!
//! Each model has a pure core that takes its random draws as arguments and is
//! pinned down exactly by a spec-level mirror; `scatter` feeds the cores from
//! the random source and states what holds of every outcome.

use crate::fixed::{
    clamp_raw, div_raw, lemma_div_bound, lemma_mul_raw_bound, lemma_sqrt_floor_is_monotonic,
    lemma_sqrt_floor_unique, mul_raw, sqrt_floor, Fx, SCALE,
};
use crate::hittable::{rec_wf, HitRecord};
use crate::ray::Ray;
use crate::rng::{rand_unit, RandomSource};
use crate::vec3::{
    bounded, dot_fx_raw, dot_raw, dot_wide, is_zero, lemma_dot_raw_bound, neg_spec,
    normalize_spec, reflect, reflect_spec, refract, refract_spec, unit_ish, Vec3, DIR_B, UNIT_B,
};
use crate::vec3::{dot, random_vec};
use vstd::arithmetic::div_mod::{
    lemma_div_is_ordered, lemma_div_is_ordered_by_denominator, lemma_div_multiples_vanish,
};
use vstd::prelude::*;

verus! {

/// Smallest accepted refraction index (one eighth).
pub const RI_MIN: i64 = 8192;

/// Largest accepted refraction index (eight).
pub const RI_MAX: i64 = 524288;

#[derive(Clone, Copy, PartialEq, Eq, Structural, Debug)]
pub enum Material {
    Lambertian { albedo: Vec3 },
    Metal { albedo: Vec3, fuzz: Fx },
    Dielectric { refraction_index: Fx },
}

/// A color whose channels lie in `[0, 1]`.
pub open spec fn color_in_unit(c: Vec3) -> bool {
    &&& 0 <= c.x.raw <= SCALE
    &&& 0 <= c.y.raw <= SCALE
    &&& 0 <= c.z.raw <= SCALE
}

/// Well-formed material: albedo channels in `[0, 1]`, fuzz in `[0, 1]`, and
/// a refraction index within the representable band.
pub open spec fn mat_wf(m: Material) -> bool {
    match m {
        Material::Lambertian { albedo } => color_in_unit(albedo),
        Material::Metal { albedo, fuzz } => color_in_unit(albedo) && 0 <= fuzz.raw <= SCALE,
        Material::Dielectric { refraction_index } => RI_MIN <= refraction_index.raw <= RI_MAX,
    }
}

/// What a successful scatter hands back: a per-channel attenuation and the
/// outgoing ray.
#[derive(Clone, Copy, PartialEq, Eq, Structural, Debug)]
pub struct ScatterResult {
    pub attenuation: Vec3,
    pub scattered: Ray,
}

/// Diffuse scattering with the unit sample `u`: direction `normal + u`, or
/// the normal itself when the sum cancels to zero.
pub open spec fn lambertian_scatter_spec(albedo: Vec3, rec: HitRecord, u: Vec3) -> ScatterResult {
    let d = Vec3 {
        x: Fx { raw: (rec.normal.x.raw + u.x.raw) as i64 },
        y: Fx { raw: (rec.normal.y.raw + u.y.raw) as i64 },
        z: Fx { raw: (rec.normal.z.raw + u.z.raw) as i64 },
    };
    let dir = if is_zero(d) {
        rec.normal
    } else {
        d
    };
    ScatterResult { attenuation: albedo, scattered: Ray { origin: rec.p, direction: dir } }
}

/// Metal scattering with the unit sample `u`: the normalized mirror
/// reflection perturbed by `fuzz * u`; absorbed when the reflection cancels
/// or the perturbed direction does not leave the surface.
pub open spec fn metal_scatter_spec(
    albedo: Vec3,
    fuzz: Fx,
    r_in: Ray,
    rec: HitRecord,
    u: Vec3,
) -> Option<ScatterResult> {
    let refl = reflect_spec(r_in.direction, rec.normal);
    if is_zero(refl) {
        None
    } else {
        let ru = normalize_spec(refl);
        let dir = Vec3 {
            x: Fx { raw: (ru.x.raw + mul_raw(u.x.raw as int, fuzz.raw as int)) as i64 },
            y: Fx { raw: (ru.y.raw + mul_raw(u.y.raw as int, fuzz.raw as int)) as i64 },
            z: Fx { raw: (ru.z.raw + mul_raw(u.z.raw as int, fuzz.raw as int)) as i64 },
        };
        if dot_raw(dir, rec.normal) > 0 {
            Some(
                ScatterResult {
                    attenuation: albedo,
                    scattered: Ray { origin: rec.p, direction: dir },
                },
            )
        } else {
            None
        }
    }
}

/// Schlick's reflectance approximation over raw values:
/// `r0^2 + (1 - r0^2) * (1 - cos)^5` with `r0 = (1 - ri) / (1 + ri)`.
pub open spec fn reflectance_spec(cos: int, ri: int) -> int {
    let r0 = div_raw(SCALE - ri, SCALE + ri);
    let r0sq = mul_raw(r0, r0);
    r0sq + mul_raw(SCALE - r0sq, pow5_raw(SCALE - cos))
}

/// The fifth fixed-point power, associated as the code computes it.
pub open spec fn pow5_raw(q: int) -> int {
    let q2 = mul_raw(q, q);
    let q4 = mul_raw(q2, q2);
    mul_raw(q4, q)
}

/// The refraction ratio the dielectric uses: inverted on a front face.
pub open spec fn dielectric_effective_ri(ri_mat: int, front_face: bool) -> int {
    if front_face {
        div_raw(SCALE as int, ri_mat)
    } else {
        ri_mat
    }
}

/// Cosine of the incidence angle, from the normalized incoming direction,
/// saturated into `[-1, 1]`.
pub open spec fn dielectric_cos(r_in: Ray, rec: HitRecord) -> int {
    clamp_raw(
        dot_fx_raw(neg_spec(normalize_spec(r_in.direction)), rec.normal),
        -(SCALE as int),
        SCALE as int,
    )
}

/// Total internal reflection: `ri * sin(theta) > 1`.
pub open spec fn dielectric_cannot_refract(ri: int, cos: int) -> bool {
    mul_raw(ri, sqrt_floor((SCALE - mul_raw(cos, cos)) * SCALE)) > SCALE
}

/// The reflect-or-refract decision, given the uniform draw `coin`.
pub open spec fn dielectric_reflects(ri: int, cos: int, coin: int) -> bool {
    dielectric_cannot_refract(ri, cos) || reflectance_spec(cos, ri) > coin
}

/// Dielectric scattering with the uniform draw `coin`: white attenuation and
/// either the reflected or the refracted direction; absorbed only in the
/// degenerate case that the chosen direction cancels to zero.
pub open spec fn dielectric_scatter_spec(
    ri_mat: int,
    r_in: Ray,
    rec: HitRecord,
    coin: int,
) -> Option<ScatterResult> {
    let ri = dielectric_effective_ri(ri_mat, rec.front_face);
    let unit = normalize_spec(r_in.direction);
    let cos = dielectric_cos(r_in, rec);
    let dir = if dielectric_reflects(ri, cos, coin) {
        reflect_spec(unit, rec.normal)
    } else {
        refract_spec(unit, rec.normal, ri)
    };
    if is_zero(dir) {
        None
    } else {
        Some(
            ScatterResult {
                attenuation: Vec3 {
                    x: Fx { raw: SCALE },
                    y: Fx { raw: SCALE },
                    z: Fx { raw: SCALE },
                },
                scattered: Ray { origin: rec.p, direction: dir },
            },
        )
    }
}

/// Diffuse scattering: never absorbs, attenuation is exactly the albedo.
pub fn scatter_lambertian(albedo: Vec3, rec: &HitRecord, u: Vec3) -> (r: ScatterResult)
    requires
        rec_wf(*rec),
        unit_ish(u),
    ensures
        r == lambertian_scatter_spec(albedo, *rec, u),
        r.attenuation == albedo,
        r.scattered.origin == rec.p,
        bounded(r.scattered.direction, DIR_B as int),
        !is_zero(r.scattered.direction),
{
    let d = rec.normal.add(u);
    let dir = if d.near_zero() {
        rec.normal
    } else {
        d
    };
    ScatterResult { attenuation: albedo, scattered: Ray { origin: rec.p, direction: dir } }
}

/// Metal scattering: absorbed exactly when the perturbed reflection fails to
/// leave the surface (or the reflection cancels); otherwise the attenuation
/// is exactly the albedo.
pub fn scatter_metal(
    albedo: Vec3,
    fuzz: Fx,
    r_in: &Ray,
    rec: &HitRecord,
    u: Vec3,
) -> (r: Option<ScatterResult>)
    requires
        rec_wf(*rec),
        unit_ish(u),
        0 <= fuzz.raw <= SCALE,
        bounded(r_in.direction, DIR_B as int),
    ensures
        r == metal_scatter_spec(albedo, fuzz, *r_in, *rec, u),
        r matches Some(sc) ==> {
            &&& sc.attenuation == albedo
            &&& sc.scattered.origin == rec.p
            &&& bounded(sc.scattered.direction, DIR_B as int)
            &&& !is_zero(sc.scattered.direction)
        },
{
    let refl = reflect(&r_in.direction, &rec.normal);
    if refl.near_zero() {
        return None;
    }
    let ru = refl.normalize();
    proof {
        lemma_mul_raw_bound(u.x.raw as int, fuzz.raw as int, SCALE as int, SCALE as int);
        lemma_mul_raw_bound(u.y.raw as int, fuzz.raw as int, SCALE as int, SCALE as int);
        lemma_mul_raw_bound(u.z.raw as int, fuzz.raw as int, SCALE as int, SCALE as int);
    }
    let dir = ru.add(u.scale(fuzz));
    let d = dot_wide(&dir, &rec.normal);
    if d > 0 {
        proof {
            if is_zero(dir) {
                crate::vec3::lemma_zero_dot(dir, rec.normal);
            }
        }
        Some(ScatterResult { attenuation: albedo, scattered: Ray { origin: rec.p, direction: dir } })
    } else {
        None
    }
}

/// Schlick's reflectance approximation.
pub fn reflectance(cosine: Fx, refraction_index: Fx) -> (r: Fx)
    requires
        -SCALE <= cosine.raw <= SCALE,
        0 < refraction_index.raw <= RI_MAX,
    ensures
        r.raw == reflectance_spec(cosine.raw as int, refraction_index.raw as int),
{
    let num = Fx::one().sub(refraction_index);
    let den = Fx::one().add(refraction_index);
    proof {
        lemma_div_bound(num.raw as int * SCALE, den.raw as int, 0x9_0000_0000);
    }
    let r0 = num.div(den);
    proof {
        lemma_mul_raw_bound(r0.raw as int, r0.raw as int, 0x9_0000_0000, 0x9_0000_0000);
    }
    let r0sq = r0.mul(r0);
    let q = Fx::one().sub(cosine);
    proof {
        lemma_mul_raw_bound(q.raw as int, q.raw as int, 2 * SCALE as int, 2 * SCALE as int);
    }
    let q2 = q.mul(q);
    proof {
        lemma_mul_raw_bound(q2.raw as int, q2.raw as int, 4 * SCALE as int, 4 * SCALE as int);
    }
    let q4 = q2.mul(q2);
    proof {
        lemma_mul_raw_bound(q4.raw as int, q.raw as int, 16 * SCALE as int, 2 * SCALE as int);
    }
    let q5 = q4.mul(q);
    let w = Fx::one().sub(r0sq);
    proof {
        lemma_mul_raw_bound(
            w.raw as int,
            q5.raw as int,
            0x52_0000_0000_0000,
            32 * SCALE as int,
        );
    }
    let t = w.mul(q5);
    r0sq.add(t)
}

/// Dielectric scattering: white attenuation; reflects on total internal
/// reflection or when the Schlick reflectance exceeds the uniform draw,
/// refracts otherwise. The incidence cosine is saturated into `[-1, 1]`
/// before use, and a direction that cancels to zero is treated as absorbed.
pub fn scatter_dielectric(
    refraction_index: Fx,
    r_in: &Ray,
    rec: &HitRecord,
    coin: Fx,
) -> (r: Option<ScatterResult>)
    requires
        rec_wf(*rec),
        RI_MIN <= refraction_index.raw <= RI_MAX,
        bounded(r_in.direction, DIR_B as int),
        !is_zero(r_in.direction),
        0 <= coin.raw,
    ensures
        r == dielectric_scatter_spec(refraction_index.raw as int, *r_in, *rec, coin.raw as int),
        r matches Some(sc) ==> {
            &&& color_in_unit(sc.attenuation)
            &&& sc.scattered.origin == rec.p
            &&& bounded(sc.scattered.direction, DIR_B as int)
            &&& !is_zero(sc.scattered.direction)
        },
{
    let ri = if rec.front_face {
        proof {
            lemma_div_is_ordered_by_denominator(
                SCALE as int * SCALE,
                RI_MIN as int,
                refraction_index.raw as int,
            );
            lemma_div_is_ordered_by_denominator(
                SCALE as int * SCALE,
                refraction_index.raw as int,
                RI_MAX as int,
            );
        }
        Fx::one().div(refraction_index)
    } else {
        refraction_index
    };
    let unit = r_in.direction.normalize();
    let mu = unit.neg();
    proof {
        lemma_dot_raw_bound(mu, rec.normal, SCALE as int, UNIT_B as int);
        lemma_div_is_ordered(dot_raw(mu, rec.normal), 0xC_0000_0000, SCALE as int);
        lemma_div_is_ordered(-0xC_0000_0000, dot_raw(mu, rec.normal), SCALE as int);
    }
    let c0 = dot(&mu, &rec.normal);
    let one = Fx::one();
    let cos = c0.clamp(one.neg(), one);
    proof {
        lemma_mul_raw_bound(cos.raw as int, cos.raw as int, SCALE as int, SCALE as int);
        crate::vec3::lemma_square_div_nonneg(cos.raw as int);
    }
    let cc = cos.mul(cos);
    let sin = one.sub(cc).sqrt();
    proof {
        lemma_sin_le_one(cc.raw as int);
        lemma_mul_raw_bound(ri.raw as int, sin.raw as int, RI_MAX as int, SCALE as int);
    }
    let cr = ri.mul(sin);
    let cannot_refract = cr.raw > SCALE;
    let refl_p = reflectance(cos, ri);
    let dir = if cannot_refract || refl_p.raw > coin.raw {
        proof {
            lemma_dot_raw_bound(unit, rec.normal, SCALE as int, UNIT_B as int);
            lemma_div_is_ordered(dot_raw(unit, rec.normal), 0xC_0000_0000, SCALE as int);
            lemma_div_is_ordered(-0xC_0000_0000, dot_raw(unit, rec.normal), SCALE as int);
            lemma_mul_raw_bound(
                rec.normal.x.raw as int,
                2 * dot_fx_raw(unit, rec.normal),
                UNIT_B as int,
                0x18_0000,
            );
            lemma_mul_raw_bound(
                rec.normal.y.raw as int,
                2 * dot_fx_raw(unit, rec.normal),
                UNIT_B as int,
                0x18_0000,
            );
            lemma_mul_raw_bound(
                rec.normal.z.raw as int,
                2 * dot_fx_raw(unit, rec.normal),
                UNIT_B as int,
                0x18_0000,
            );
        }
        reflect(&unit, &rec.normal)
    } else {
        refract(&unit, &rec.normal, ri)
    };
    if dir.near_zero() {
        None
    } else {
        let white = Vec3 { x: Fx { raw: SCALE }, y: Fx { raw: SCALE }, z: Fx { raw: SCALE } };
        Some(ScatterResult { attenuation: white, scattered: Ray { origin: rec.p, direction: dir } })
    }
}

/// With the squared cosine in `[0, 1]`, the fixed-point sine is at most one.
proof fn lemma_sin_le_one(cc: int)
    requires
        0 <= cc <= SCALE,
    ensures
        0 <= sqrt_floor((SCALE - cc) * SCALE) <= SCALE,
{
    crate::fixed::lemma_sqrt_floor((SCALE - cc) * SCALE);
    assert((SCALE - cc) * SCALE <= SCALE * SCALE) by (nonlinear_arith)
        requires
            0 <= cc <= SCALE,
    ;
    assert(crate::fixed::is_sqrt_floor(SCALE as int * SCALE, SCALE as int)) by (nonlinear_arith);
    lemma_sqrt_floor_unique(SCALE as int * SCALE, SCALE as int);
    lemma_sqrt_floor_is_monotonic((SCALE - cc) * SCALE, SCALE as int * SCALE);
}

/// An outcome that `scatter` can hand back for material `m`: the exact
/// per-model spec at some admissible draw (a unit-like vector for the
/// diffuse and metal models, a uniform coin for the dielectric).
pub open spec fn scatter_outcome_ok(
    m: Material,
    r_in: Ray,
    rec: HitRecord,
    out: Option<ScatterResult>,
) -> bool {
    match m {
        Material::Lambertian { albedo } => exists|u: Vec3|
            unit_ish(u) && out == Some(#[trigger] lambertian_scatter_spec(albedo, rec, u)),
        Material::Metal { albedo, fuzz } => exists|u: Vec3|
            unit_ish(u) && out == #[trigger] metal_scatter_spec(albedo, fuzz, r_in, rec, u),
        Material::Dielectric { refraction_index } => exists|c: int|
            0 <= c < SCALE && out == #[trigger] dielectric_scatter_spec(
                refraction_index.raw as int,
                r_in,
                rec,
                c,
            ),
    }
}

impl Material {
    /// Scatter an incoming ray at a hit. The result is the exact per-model
    /// spec at the draws that were taken, stated through `scatter_outcome_ok`;
    /// what holds of every outcome is stated directly.
    pub fn scatter(&self, r_in: &Ray, rec: &HitRecord, rng: &mut RandomSource) -> (r: Option<
        ScatterResult,
    >)
        requires
            mat_wf(*self),
            rec_wf(*rec),
            bounded(r_in.direction, DIR_B as int),
            !is_zero(r_in.direction),
        ensures
            scatter_outcome_ok(*self, *r_in, *rec, r),
            r matches Some(sc) ==> {
                &&& color_in_unit(sc.attenuation)
                &&& sc.scattered.origin == rec.p
                &&& bounded(sc.scattered.direction, DIR_B as int)
                &&& !is_zero(sc.scattered.direction)
            },
            *self matches Material::Lambertian { albedo } ==> r.is_some() && (r matches Some(sc)
                ==> sc.attenuation == albedo),
    {
        match self {
            Material::Lambertian { albedo } => {
                let u = random_vec(rng);
                let sc = scatter_lambertian(*albedo, rec, u);
                proof {
                    assert(unit_ish(u) && sc == lambertian_scatter_spec(*albedo, *rec, u));
                }
                Some(sc)
            },
            Material::Metal { albedo, fuzz } => {
                let u = random_vec(rng);
                let r = scatter_metal(*albedo, *fuzz, r_in, rec, u);
                proof {
                    assert(unit_ish(u) && r == metal_scatter_spec(*albedo, *fuzz, *r_in, *rec, u));
                }
                r
            },
            Material::Dielectric { refraction_index } => {
                let coin = rand_unit(rng);
                let r = scatter_dielectric(*refraction_index, r_in, rec, coin);
                proof {
                    assert(0 <= coin.raw < SCALE && r == dielectric_scatter_spec(
                        refraction_index.raw as int,
                        *r_in,
                        *rec,
                        coin.raw as int,
                    ));
                }
                r
            },
        }
    }
}

impl Default for Material {
    /// A black diffuse material.
    fn default() -> (r: Material)
        ensures
            r == (Material::Lambertian {
                albedo: Vec3 { x: Fx { raw: 0 }, y: Fx { raw: 0 }, z: Fx { raw: 0 } },
            }),
    {
        Material::Lambertian {
            albedo: Vec3 { x: Fx { raw: 0 }, y: Fx { raw: 0 }, z: Fx { raw: 0 } },
        }
    }
}

/// With a matched refraction index (exactly one), total internal reflection
/// never occurs: `1 * sin(theta) <= 1` for every saturated cosine.
pub proof fn lemma_matched_index_never_total_internal_reflection(cos: int)
    requires
        -SCALE <= cos <= SCALE,
    ensures
        !dielectric_cannot_refract(SCALE as int, cos),
{
    crate::vec3::lemma_square_div_nonneg(cos);
    assert(cos * cos <= SCALE * SCALE) by (nonlinear_arith)
        requires
            -SCALE <= cos <= SCALE,
    ;
    lemma_div_is_ordered(cos * cos, SCALE as int * SCALE, SCALE as int);
    lemma_div_multiples_vanish(SCALE as int, SCALE as int);
    lemma_sin_le_one(mul_raw(cos, cos));
    let sin = sqrt_floor((SCALE - mul_raw(cos, cos)) * SCALE);
    lemma_div_multiples_vanish(sin, SCALE as int);
    assert(SCALE as int * sin == sin * SCALE) by (nonlinear_arith);
    assert(mul_raw(SCALE as int, sin) == sin);
}

/// With a matched refraction index, Schlick's reflectance reduces to
/// `(1 - cos)^5`: the index-mismatch term is exactly zero.
pub proof fn lemma_matched_index_reflectance(cos: int)
    ensures
        reflectance_spec(cos, SCALE as int) == pow5_raw(SCALE - cos),
{
    assert(div_raw(SCALE - SCALE as int, SCALE + SCALE as int) == 0) by {
        assert((SCALE - SCALE as int) * SCALE == 0) by (nonlinear_arith);
        vstd::arithmetic::div_mod::lemma_div_of0(SCALE + SCALE as int);
    }
    assert(mul_raw(0, 0) == 0) by {
        vstd::arithmetic::div_mod::lemma_div_of0(SCALE as int);
    }
    let q5 = pow5_raw(SCALE - cos);
    lemma_div_multiples_vanish(q5, SCALE as int);
    assert((SCALE - 0) * q5 == SCALE as int * q5);
    assert(SCALE as int * q5 == q5 * SCALE) by (nonlinear_arith);
    assert(mul_raw(SCALE as int - 0, q5) == q5);
}

/// A dielectric with matched refraction index refracts: at normal incidence
/// always, and otherwise whenever the draw is at least `(1 - cos)^5`.
pub proof fn lemma_matched_index_refracts(cos: int, coin: int)
    requires
        -SCALE <= cos <= SCALE,
        0 <= coin,
        cos == SCALE || pow5_raw(SCALE - cos) <= coin,
    ensures
        !dielectric_reflects(SCALE as int, cos, coin),
{
    lemma_matched_index_never_total_internal_reflection(cos);
    lemma_matched_index_reflectance(cos);
    if cos == SCALE {
        assert(pow5_raw(0) == 0) by {
            vstd::arithmetic::div_mod::lemma_div_of0(SCALE as int);
        }
    }
}

} // verus!
