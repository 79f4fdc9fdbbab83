//! Scene objects and the aggregate nearest-hit query.
//!
//! The sphere intersection solves the half-form quadratic in exact wide
//! integer arithmetic; its result is pinned down by `sphere_hit_spec`, an
//! integer-for-integer mirror. The collection query folds over the objects,
//! narrowing the interval to the closest hit so far, and is pinned down by
//! `list_hit_spec`.

use crate::fixed::{
    floor_div_i128, isqrt_u128, lemma_mul_bound, mul_raw, sqrt_floor, Fx, SCALE,
};
use crate::hittable::{face_normal_spec, rec_wf, HitRecord};
use crate::interval::Interval;
use crate::material::{mat_wf, Material};
use crate::ray::Ray;
use crate::sphere::Sphere;
use crate::vec3::{
    bounded, dot_raw, dot_wide, is_zero, lemma_dot_neg, lemma_dot_raw_bound, lemma_dot_self_pos,
    neg_spec, Vec3, DIR_B, POS_B, UNIT_B,
};
use vstd::prelude::*;

verus! {

/// A scene object: centers, radius and material within the representable band.
pub open spec fn sphere_wf(s: Sphere) -> bool {
    &&& bounded(s.center, POS_B as int)
    &&& 0 <= s.radius.raw <= POS_B
    &&& mat_wf(s.mat)
}

/// A ray the intersection query accepts: bounded origin and direction, and a
/// direction that is not zero.
pub open spec fn ray_wf(r: Ray) -> bool {
    &&& bounded(r.origin, POS_B as int)
    &&& bounded(r.direction, DIR_B as int)
    &&& !is_zero(r.direction)
}

/// The vector from the ray origin to the sphere center, exact.
pub open spec fn sphere_oc(s: Sphere, r: Ray) -> Vec3 {
    Vec3 {
        x: Fx { raw: (s.center.x.raw - r.origin.x.raw) as i64 },
        y: Fx { raw: (s.center.y.raw - r.origin.y.raw) as i64 },
        z: Fx { raw: (s.center.z.raw - r.origin.z.raw) as i64 },
    }
}

/// Quadratic coefficient `a = |direction|^2`, in raw squared units.
pub open spec fn sphere_a(r: Ray) -> int {
    dot_raw(r.direction, r.direction)
}

/// Half-form coefficient `h = direction . oc`, in raw squared units.
pub open spec fn sphere_h(s: Sphere, r: Ray) -> int {
    dot_raw(r.direction, sphere_oc(s, r))
}

/// Constant term `c = |oc|^2 - radius^2`, in raw squared units.
pub open spec fn sphere_c_val(s: Sphere, r: Ray) -> int {
    dot_raw(sphere_oc(s, r), sphere_oc(s, r)) - s.radius.raw * s.radius.raw
}

/// The discriminant of the half-form quadratic.
pub open spec fn sphere_disc(s: Sphere, r: Ray) -> int {
    sphere_h(s, r) * sphere_h(s, r) - sphere_a(r) * sphere_c_val(s, r)
}

/// The smaller root `(h - sqrt(disc)) / a`, as a raw ray parameter.
pub open spec fn sphere_root_near(s: Sphere, r: Ray) -> int {
    (sphere_h(s, r) - sqrt_floor(sphere_disc(s, r))) * SCALE / sphere_a(r)
}

/// The larger root `(h + sqrt(disc)) / a`, as a raw ray parameter.
pub open spec fn sphere_root_far(s: Sphere, r: Ray) -> int {
    (sphere_h(s, r) + sqrt_floor(sphere_disc(s, r))) * SCALE / sphere_a(r)
}

/// The record for an accepted root: hit point, outward normal scaled by the
/// radius, orientation, and the sphere's material. The hit is dropped when
/// the point leaves the representable world or the scaled normal degenerates
/// (out of band or zero), which resolves numeric edge cases by policy.
pub open spec fn sphere_make_record(s: Sphere, r: Ray, root: int) -> Option<HitRecord> {
    let px = r.origin.x.raw + mul_raw(r.direction.x.raw as int, root);
    let py = r.origin.y.raw + mul_raw(r.direction.y.raw as int, root);
    let pz = r.origin.z.raw + mul_raw(r.direction.z.raw as int, root);
    if !(-POS_B <= px <= POS_B && -POS_B <= py <= POS_B && -POS_B <= pz <= POS_B) {
        None
    } else {
        let nx = (px - s.center.x.raw) * SCALE / (s.radius.raw as int);
        let ny = (py - s.center.y.raw) * SCALE / (s.radius.raw as int);
        let nz = (pz - s.center.z.raw) * SCALE / (s.radius.raw as int);
        if !(-UNIT_B <= nx <= UNIT_B && -UNIT_B <= ny <= UNIT_B && -UNIT_B <= nz <= UNIT_B) || (nx
            == 0 && ny == 0 && nz == 0) {
            None
        } else {
            let p = Vec3 { x: Fx { raw: px as i64 }, y: Fx { raw: py as i64 }, z: Fx { raw: pz as i64 } };
            let outward = Vec3 {
                x: Fx { raw: nx as i64 },
                y: Fx { raw: ny as i64 },
                z: Fx { raw: nz as i64 },
            };
            Some(
                HitRecord {
                    front_face: dot_raw(r.direction, outward) < 0,
                    mat: s.mat,
                    normal: face_normal_spec(r, outward),
                    p,
                    t: Fx { raw: root as i64 },
                },
            )
        }
    }
}

/// The nearest accepted intersection of a ray with a sphere inside the open
/// parameter interval `(tmin, tmax)`: the smaller root when it lies inside,
/// else the larger, else no hit. A sphere of zero radius is never hit.
pub open spec fn sphere_hit_spec(s: Sphere, r: Ray, tmin: int, tmax: int) -> Option<HitRecord> {
    if s.radius.raw <= 0 {
        None
    } else if sphere_disc(s, r) < 0 {
        None
    } else {
        let near = sphere_root_near(s, r);
        let far = sphere_root_far(s, r);
        let root = if tmin < near && near < tmax {
            near
        } else {
            far
        };
        if !(tmin < root && root < tmax) {
            None
        } else {
            sphere_make_record(s, r, root)
        }
    }
}

#[derive(Clone, Copy, PartialEq, Eq, Structural, Debug)]
pub enum HittableObject {
    Sphere(Sphere),
}

pub open spec fn object_wf(o: HittableObject) -> bool {
    match o {
        HittableObject::Sphere(s) => sphere_wf(s),
    }
}

/// The intersection of a ray with one scene object.
pub open spec fn object_hit_spec(o: HittableObject, r: Ray, tmin: int, tmax: int) -> Option<
    HitRecord,
> {
    match o {
        HittableObject::Sphere(s) => sphere_hit_spec(s, r, tmin, tmax),
    }
}

impl HittableObject {
    /// Intersect the ray with this object over the open interval `ray_t`.
    /// On a hit the record is replaced wholesale; on a miss it is untouched.
    pub fn hit(&self, r: &Ray, ray_t: Interval, rec: &mut HitRecord) -> (b: bool)
        requires
            object_wf(*self),
            ray_wf(*r),
        ensures
            b == object_hit_spec(*self, *r, ray_t.min.raw as int, ray_t.max.raw as int).is_some(),
            match object_hit_spec(*self, *r, ray_t.min.raw as int, ray_t.max.raw as int) {
                Some(h) => *final(rec) == h,
                None => *final(rec) == *old(rec),
            },
            b ==> rec_wf(*final(rec)) && ray_t.min.raw < final(rec).t.raw < ray_t.max.raw,
    {
        match self {
            HittableObject::Sphere(sphere) => Self::sphere_hit(sphere, r, ray_t, rec),
        }
    }

    /// Solve the half-form quadratic in wide integer arithmetic and accept
    /// the nearest root inside the interval.
    fn sphere_hit(sphere: &Sphere, r: &Ray, ray_t: Interval, rec: &mut HitRecord) -> (b: bool)
        requires
            sphere_wf(*sphere),
            ray_wf(*r),
        ensures
            b == sphere_hit_spec(*sphere, *r, ray_t.min.raw as int, ray_t.max.raw as int).is_some(),
            match sphere_hit_spec(*sphere, *r, ray_t.min.raw as int, ray_t.max.raw as int) {
                Some(h) => *final(rec) == h,
                None => *final(rec) == *old(rec),
            },
            b ==> rec_wf(*final(rec)) && ray_t.min.raw < final(rec).t.raw < ray_t.max.raw,
    {
        if sphere.radius.raw <= 0 {
            return false;
        }
        let oc = sphere.center.sub(r.origin);
        let a = dot_wide(&r.direction, &r.direction);
        let h = dot_wide(&r.direction, &oc);
        proof {
            lemma_dot_self_pos(r.direction);
            lemma_dot_raw_bound(r.direction, r.direction, DIR_B as int, DIR_B as int);
            lemma_dot_raw_bound(r.direction, oc, DIR_B as int, 0x2000_0000);
            lemma_dot_raw_bound(oc, oc, 0x2000_0000, 0x2000_0000);
            lemma_mul_bound(sphere.radius.raw as int, sphere.radius.raw as int, POS_B as int, POS_B as int);
        }
        let rad2 = crate::fixed::wide_mul(sphere.radius.raw, sphere.radius.raw);
        let oc2 = dot_wide(&oc, &oc);
        let c = oc2 - rad2;
        proof {
            lemma_mul_bound(h as int, h as int, 0x1800_0000_0000_0000, 0x1800_0000_0000_0000);
            lemma_mul_bound(a as int, c as int, 0x3000_0000_0000_0000, 0xD00_0000_0000_0000);
        }
        let disc = h * h - a * c;
        if disc < 0 {
            return false;
        }
        let sd = isqrt_u128(disc as u128) as i128;
        proof {
            lemma_mul_bound(h as int - sd as int, SCALE as int, 0x2_0000_0000_0000_0000, SCALE as int);
            lemma_mul_bound(h as int + sd as int, SCALE as int, 0x2_0000_0000_0000_0000, SCALE as int);
        }
        let tmin = ray_t.min.raw as i128;
        let tmax = ray_t.max.raw as i128;
        let near = floor_div_i128((h - sd) * (SCALE as i128), a);
        let mut root = near;
        if !(tmin < root && root < tmax) {
            root = floor_div_i128((h + sd) * (SCALE as i128), a);
            if !(tmin < root && root < tmax) {
                return false;
            }
        }
        proof {
            lemma_mul_bound(r.direction.x.raw as int, root as int, DIR_B as int, 0x8000_0000_0000_0000);
            lemma_mul_bound(r.direction.y.raw as int, root as int, DIR_B as int, 0x8000_0000_0000_0000);
            lemma_mul_bound(r.direction.z.raw as int, root as int, DIR_B as int, 0x8000_0000_0000_0000);
        }
        let px = (r.origin.x.raw as i128) + floor_div_i128(
            (r.direction.x.raw as i128) * root,
            SCALE as i128,
        );
        let py = (r.origin.y.raw as i128) + floor_div_i128(
            (r.direction.y.raw as i128) * root,
            SCALE as i128,
        );
        let pz = (r.origin.z.raw as i128) + floor_div_i128(
            (r.direction.z.raw as i128) * root,
            SCALE as i128,
        );
        let pb = POS_B as i128;
        if !(-pb <= px && px <= pb && -pb <= py && py <= pb && -pb <= pz && pz <= pb) {
            return false;
        }
        let rad = sphere.radius.raw as i128;
        let nx = floor_div_i128((px - sphere.center.x.raw as i128) * (SCALE as i128), rad);
        let ny = floor_div_i128((py - sphere.center.y.raw as i128) * (SCALE as i128), rad);
        let nz = floor_div_i128((pz - sphere.center.z.raw as i128) * (SCALE as i128), rad);
        let ub = UNIT_B as i128;
        if !(-ub <= nx && nx <= ub && -ub <= ny && ny <= ub && -ub <= nz && nz <= ub) || (nx == 0
            && ny == 0 && nz == 0) {
            return false;
        }
        rec.t = Fx { raw: root as i64 };
        rec.p = Vec3 { x: Fx { raw: px as i64 }, y: Fx { raw: py as i64 }, z: Fx { raw: pz as i64 } };
        let outward = Vec3 { x: Fx { raw: nx as i64 }, y: Fx { raw: ny as i64 }, z: Fx { raw: nz as i64 } };
        rec.mat = sphere.mat;
        rec.set_face_normal(r, outward);
        true
    }
}

/// The nearest-hit fold from index `k` on, with the best record so far and
/// the interval max narrowed to its parameter.
pub open spec fn list_hit_from(
    objs: Seq<HittableObject>,
    k: int,
    r: Ray,
    tmin: int,
    closest: int,
    cur: Option<HitRecord>,
) -> Option<HitRecord>
    decreases objs.len() - k,
{
    if k < 0 || k >= objs.len() {
        cur
    } else {
        match object_hit_spec(objs[k], r, tmin, closest) {
            Some(h) => list_hit_from(objs, k + 1, r, tmin, h.t.raw as int, Some(h)),
            None => list_hit_from(objs, k + 1, r, tmin, closest, cur),
        }
    }
}

/// The record of the object with the smallest accepted parameter, earlier
/// objects winning ties.
pub open spec fn list_hit_spec(objs: Seq<HittableObject>, r: Ray, tmin: int, tmax: int) -> Option<
    HitRecord,
> {
    list_hit_from(objs, 0, r, tmin, tmax, None)
}

/// An ordered collection of scene objects.
#[derive(Clone)]
pub struct HittableList {
    pub objects: Vec<HittableObject>,
}

pub open spec fn list_wf(l: HittableList) -> bool {
    forall|i: int| 0 <= i < l.objects.len() ==> object_wf(#[trigger] l.objects[i])
}

impl HittableList {
    pub fn new() -> (r: HittableList)
        ensures
            r.objects@ =~= Seq::<HittableObject>::empty(),
    {
        HittableList { objects: Vec::new() }
    }

    /// Append one object to the scene.
    pub fn add(&mut self, object: HittableObject)
        ensures
            final(self).objects@ == old(self).objects@.push(object),
    {
        self.objects.push(object);
    }

    /// Whether every object satisfies the intersection queries' precondition:
    /// bounded geometry and well-formed materials.
    pub fn wf(&self) -> (r: bool)
        ensures
            r == list_wf(*self),
    {
        let n = self.objects.len();
        let mut i: usize = 0;
        while i < n
            invariant
                0 <= i <= n,
                n == self.objects.len(),
                forall|k: int| 0 <= k < i ==> object_wf(#[trigger] self.objects[k]),
            decreases n - i,
        {
            if !object_ok(&self.objects[i]) {
                return false;
            }
            i = i + 1;
        }
        true
    }

    /// Intersect the ray against every object and keep the nearest accepted
    /// hit; the record is written only when something was hit.
    pub fn hit(&self, r: &Ray, ray_t: Interval, rec: &mut HitRecord) -> (b: bool)
        requires
            list_wf(*self),
            ray_wf(*r),
        ensures
            b == list_hit_spec(self.objects@, *r, ray_t.min.raw as int, ray_t.max.raw as int).is_some(),
            match list_hit_spec(self.objects@, *r, ray_t.min.raw as int, ray_t.max.raw as int) {
                Some(h) => *final(rec) == h,
                None => *final(rec) == *old(rec),
            },
            b ==> rec_wf(*final(rec)) && ray_t.min.raw < final(rec).t.raw <= ray_t.max.raw,
    {
        let ghost tmin = ray_t.min.raw as int;
        let ghost tmax = ray_t.max.raw as int;
        let mut temp_record = *rec;
        let mut hit_anything = false;
        let mut closest_so_far = ray_t.max;
        let n = self.objects.len();
        let mut i: usize = 0;
        while i < n
            invariant
                0 <= i <= n,
                n == self.objects.len(),
                list_wf(*self),
                ray_wf(*r),
                tmin == ray_t.min.raw as int,
                tmax == ray_t.max.raw as int,
                list_hit_spec(self.objects@, *r, tmin, tmax) == list_hit_from(
                    self.objects@,
                    i as int,
                    *r,
                    tmin,
                    closest_so_far.raw as int,
                    if hit_anything {
                        Some(temp_record)
                    } else {
                        None
                    },
                ),
                hit_anything ==> {
                    &&& *rec == temp_record
                    &&& rec_wf(temp_record)
                    &&& closest_so_far.raw == temp_record.t.raw
                    &&& tmin < closest_so_far.raw <= tmax
                },
                !hit_anything ==> *rec == *old(rec) && closest_so_far.raw == tmax,
            decreases n - i,
        {
            let obj = &self.objects[i];
            let b = obj.hit(r, Interval { min: ray_t.min, max: closest_so_far }, &mut temp_record);
            if b {
                hit_anything = true;
                closest_so_far = temp_record.t;
                *rec = temp_record;
            }
            i = i + 1;
        }
        hit_anything
    }
}

/// Componentwise test against the scene position bound.
fn pos_bounded(v: &Vec3) -> (r: bool)
    ensures
        r == bounded(*v, POS_B as int),
{
    -POS_B <= v.x.raw && v.x.raw <= POS_B && -POS_B <= v.y.raw && v.y.raw <= POS_B && -POS_B
        <= v.z.raw && v.z.raw <= POS_B
}

/// Componentwise test against the color unit range.
fn color_ok(c: &Vec3) -> (r: bool)
    ensures
        r == crate::material::color_in_unit(*c),
{
    0 <= c.x.raw && c.x.raw <= SCALE && 0 <= c.y.raw && c.y.raw <= SCALE && 0 <= c.z.raw
        && c.z.raw <= SCALE
}

/// Executable mirror of `mat_wf`.
fn mat_ok(m: &Material) -> (r: bool)
    ensures
        r == mat_wf(*m),
{
    match m {
        Material::Lambertian { albedo } => color_ok(albedo),
        Material::Metal { albedo, fuzz } => color_ok(albedo) && 0 <= fuzz.raw && fuzz.raw <= SCALE,
        Material::Dielectric { refraction_index } => crate::material::RI_MIN
            <= refraction_index.raw && refraction_index.raw <= crate::material::RI_MAX,
    }
}

/// Executable mirror of `object_wf`.
fn object_ok(o: &HittableObject) -> (r: bool)
    ensures
        r == object_wf(*o),
{
    match o {
        HittableObject::Sphere(s) => pos_bounded(&s.center) && 0 <= s.radius.raw && s.radius.raw
            <= POS_B && mat_ok(&s.mat),
    }
}

/// With a nonnegative discriminant, the far root is at least the near root.
proof fn lemma_roots_ordered(s: Sphere, r: Ray)
    requires
        ray_wf(r),
        sphere_disc(s, r) >= 0,
    ensures
        sphere_a(r) >= 1,
        sqrt_floor(sphere_disc(s, r)) >= 0,
        sphere_root_near(s, r) <= sphere_root_far(s, r),
{
    lemma_dot_self_pos(r.direction);
    crate::fixed::lemma_sqrt_floor(sphere_disc(s, r));
    let h = sphere_h(s, r);
    let sd = sqrt_floor(sphere_disc(s, r));
    let a = sphere_a(r);
    vstd::arithmetic::div_mod::lemma_div_is_ordered((h - sd) * SCALE, (h + sd) * SCALE, a);
}

/// An accepted hit lies strictly inside the query interval and keeps the
/// accepted root as its parameter.
proof fn lemma_sphere_hit_in_interval(s: Sphere, r: Ray, tmin: int, tmax: int)
    requires
        sphere_wf(s),
        ray_wf(r),
        i64::MIN <= tmin,
        tmax <= i64::MAX,
        sphere_hit_spec(s, r, tmin, tmax).is_some(),
    ensures
        tmin < sphere_hit_spec(s, r, tmin, tmax)->Some_0.t.raw < tmax,
{
}

/// Shrinking the interval maximum preserves a miss.
proof fn lemma_sphere_hit_none_narrow(s: Sphere, r: Ray, tmin: int, m1: int, m2: int)
    requires
        sphere_wf(s),
        ray_wf(r),
        m2 <= m1,
        sphere_hit_spec(s, r, tmin, m1) == None::<HitRecord>,
    ensures
        sphere_hit_spec(s, r, tmin, m2) == None::<HitRecord>,
{
    if s.radius.raw <= 0 || sphere_disc(s, r) < 0 {
    } else {
        lemma_roots_ordered(s, r);
        let near = sphere_root_near(s, r);
        let far = sphere_root_far(s, r);
        if tmin < near && near < m2 {
            assert(tmin < near && near < m1);
            assert(sphere_make_record(s, r, near) == None::<HitRecord>);
        }
    }
}

/// A hit is reproduced by the interval that barely contains its parameter.
proof fn lemma_sphere_hit_stable(s: Sphere, r: Ray, tmin: int, m: int)
    requires
        sphere_wf(s),
        ray_wf(r),
        i64::MIN <= tmin,
        m <= i64::MAX,
        sphere_hit_spec(s, r, tmin, m).is_some(),
    ensures
        sphere_hit_spec(s, r, tmin, m)->Some_0.t.raw < m,
        sphere_hit_spec(
            s,
            r,
            tmin,
            sphere_hit_spec(s, r, tmin, m)->Some_0.t.raw + 1,
        ) == sphere_hit_spec(s, r, tmin, m),
{
    lemma_roots_ordered(s, r);
    let near = sphere_root_near(s, r);
    let far = sphere_root_far(s, r);
    let h = sphere_hit_spec(s, r, tmin, m)->Some_0;
    if tmin < near && near < m {
        assert(h.t.raw == near);
        assert(tmin < near && near < near + 1);
    } else {
        assert(h.t.raw == far);
        assert(!(tmin < near && near < m));
        assert(far < m);
        assert(near <= tmin);
    }
}

/// No interval that stops at or before a hit's parameter sees a hit.
proof fn lemma_sphere_hit_below(s: Sphere, r: Ray, tmin: int, m: int, m2: int)
    requires
        sphere_wf(s),
        ray_wf(r),
        i64::MIN <= tmin,
        m <= i64::MAX,
        sphere_hit_spec(s, r, tmin, m).is_some(),
        m2 <= sphere_hit_spec(s, r, tmin, m)->Some_0.t.raw,
    ensures
        sphere_hit_spec(s, r, tmin, m2) == None::<HitRecord>,
{
    lemma_roots_ordered(s, r);
    let near = sphere_root_near(s, r);
    let far = sphere_root_far(s, r);
    let h = sphere_hit_spec(s, r, tmin, m)->Some_0;
    if tmin < near && near < m {
        assert(h.t.raw == near);
        assert(!(near < m2));
    } else {
        assert(h.t.raw == far);
        assert(near <= tmin || near >= m);
        assert(far < m);
        assert(near <= tmin);
        assert(!(far < m2));
    }
}

proof fn lemma_object_hit_none_narrow(o: HittableObject, r: Ray, tmin: int, m1: int, m2: int)
    requires
        object_wf(o),
        ray_wf(r),
        m2 <= m1,
        object_hit_spec(o, r, tmin, m1) == None::<HitRecord>,
    ensures
        object_hit_spec(o, r, tmin, m2) == None::<HitRecord>,
{
    match o {
        HittableObject::Sphere(s) => lemma_sphere_hit_none_narrow(s, r, tmin, m1, m2),
    }
}

proof fn lemma_object_hit_stable(o: HittableObject, r: Ray, tmin: int, m: int)
    requires
        object_wf(o),
        ray_wf(r),
        i64::MIN <= tmin,
        m <= i64::MAX,
        object_hit_spec(o, r, tmin, m).is_some(),
    ensures
        tmin < object_hit_spec(o, r, tmin, m)->Some_0.t.raw < m,
        object_hit_spec(
            o,
            r,
            tmin,
            object_hit_spec(o, r, tmin, m)->Some_0.t.raw + 1,
        ) == object_hit_spec(o, r, tmin, m),
{
    match o {
        HittableObject::Sphere(s) => {
            lemma_sphere_hit_in_interval(s, r, tmin, m);
            lemma_sphere_hit_stable(s, r, tmin, m);
        },
    }
}

proof fn lemma_object_hit_below(o: HittableObject, r: Ray, tmin: int, m: int, m2: int)
    requires
        object_wf(o),
        ray_wf(r),
        i64::MIN <= tmin,
        m <= i64::MAX,
        object_hit_spec(o, r, tmin, m).is_some(),
        m2 <= object_hit_spec(o, r, tmin, m)->Some_0.t.raw,
    ensures
        object_hit_spec(o, r, tmin, m2) == None::<HitRecord>,
{
    match o {
        HittableObject::Sphere(s) => lemma_sphere_hit_below(s, r, tmin, m, m2),
    }
}

/// Induction along the nearest-hit fold: the result lies in the interval, is
/// produced by some object, and no object hits strictly closer.
proof fn lemma_list_hit_from_props(
    objs: Seq<HittableObject>,
    k: int,
    r: Ray,
    tmin: int,
    closest: int,
    cur: Option<HitRecord>,
    tmax: int,
)
    requires
        forall|i: int| 0 <= i < objs.len() ==> object_wf(#[trigger] objs[i]),
        ray_wf(r),
        i64::MIN <= tmin,
        tmax <= i64::MAX,
        0 <= k <= objs.len(),
        match cur {
            None => closest == tmax,
            Some(c) => closest == c.t.raw && tmin < c.t.raw && c.t.raw <= tmax,
        },
    ensures
        match list_hit_from(objs, k, r, tmin, closest, cur) {
            None => cur is None && forall|j: int|
                k <= j < objs.len() ==> #[trigger] object_hit_spec(objs[j], r, tmin, closest)
                    == None::<HitRecord>,
            Some(h) => {
                &&& tmin < h.t.raw <= closest
                &&& h.t.raw <= tmax
                &&& (cur == Some(h) || exists|j: int|
                    k <= j < objs.len() && #[trigger] object_hit_spec(objs[j], r, tmin, h.t.raw + 1)
                        == Some(h))
                &&& forall|j: int|
                    k <= j < objs.len() ==> #[trigger] object_hit_spec(objs[j], r, tmin, h.t.raw as int)
                        == None::<HitRecord>
            },
        },
    decreases objs.len() - k,
{
    if k >= objs.len() {
    } else {
        let o = objs[k];
        match object_hit_spec(o, r, tmin, closest) {
            Some(hk) => {
                lemma_object_hit_stable(o, r, tmin, closest);
                lemma_list_hit_from_props(objs, k + 1, r, tmin, hk.t.raw as int, Some(hk), tmax);
                let res = list_hit_from(objs, k, r, tmin, closest, cur);
                assert(res == list_hit_from(objs, k + 1, r, tmin, hk.t.raw as int, Some(hk)));
                let h = res->Some_0;
                assert(res is Some);
                lemma_object_hit_below(o, r, tmin, closest, h.t.raw as int);
                if h == hk {
                    assert(object_hit_spec(o, r, tmin, h.t.raw + 1) == Some(h));
                }
            },
            None => {
                lemma_list_hit_from_props(objs, k + 1, r, tmin, closest, cur, tmax);
                let res = list_hit_from(objs, k, r, tmin, closest, cur);
                match res {
                    None => {
                        assert(object_hit_spec(o, r, tmin, closest) == None::<HitRecord>);
                    },
                    Some(h) => {
                        lemma_object_hit_none_narrow(o, r, tmin, closest, h.t.raw as int);
                    },
                }
            },
        }
    }
}

/// Nearest-hit selection: when the aggregate query returns a record, its
/// parameter lies inside the interval, some object produces exactly that
/// record, and no object has an accepted hit strictly closer; when it
/// returns nothing, no object hits inside the interval at all.
pub proof fn lemma_nearest_hit(objs: Seq<HittableObject>, r: Ray, tmin: int, tmax: int)
    requires
        forall|i: int| 0 <= i < objs.len() ==> object_wf(#[trigger] objs[i]),
        ray_wf(r),
        i64::MIN <= tmin,
        tmax <= i64::MAX,
    ensures
        match list_hit_spec(objs, r, tmin, tmax) {
            None => forall|j: int|
                0 <= j < objs.len() ==> #[trigger] object_hit_spec(objs[j], r, tmin, tmax)
                    == None::<HitRecord>,
            Some(h) => {
                &&& tmin < h.t.raw <= tmax
                &&& exists|j: int|
                    0 <= j < objs.len() && #[trigger] object_hit_spec(objs[j], r, tmin, h.t.raw + 1)
                        == Some(h)
                &&& forall|j: int|
                    0 <= j < objs.len() ==> #[trigger] object_hit_spec(objs[j], r, tmin, h.t.raw as int)
                        == None::<HitRecord>
            },
        },
{
    lemma_list_hit_from_props(objs, 0, r, tmin, tmax, None, tmax);
}

/// No false hits: a ray whose squared closest approach to the center exceeds
/// the squared radius (in the scaled algebraic form `a * |oc|^2 - h^2 >
/// a * r^2`, with `a > 0`) misses the sphere for every query interval.
pub proof fn lemma_no_false_hit(s: Sphere, r: Ray, tmin: int, tmax: int)
    requires
        sphere_wf(s),
        ray_wf(r),
        sphere_a(r) * dot_raw(sphere_oc(s, r), sphere_oc(s, r)) - sphere_h(s, r) * sphere_h(s, r)
            > sphere_a(r) * (s.radius.raw * s.radius.raw),
    ensures
        sphere_hit_spec(s, r, tmin, tmax) == None::<HitRecord>,
{
    let a = sphere_a(r);
    let oc2 = dot_raw(sphere_oc(s, r), sphere_oc(s, r));
    let r2 = s.radius.raw as int * s.radius.raw;
    assert(a * sphere_c_val(s, r) == a * oc2 - a * r2) by (nonlinear_arith)
        requires
            sphere_c_val(s, r) == oc2 - r2,
    ;
    assert(sphere_disc(s, r) < 0);
}

/// Sphere intersection exactness: the parameter of an accepted hit is
/// exactly the nearer root of the half-form quadratic whenever that root
/// lies inside the query interval, and the farther root otherwise.
pub proof fn lemma_sphere_hit_exact_root(s: Sphere, r: Ray, tmin: int, tmax: int)
    requires
        sphere_wf(s),
        ray_wf(r),
        i64::MIN <= tmin,
        tmax <= i64::MAX,
        sphere_hit_spec(s, r, tmin, tmax).is_some(),
    ensures
        tmin < sphere_root_near(s, r) < tmax ==> sphere_hit_spec(s, r, tmin, tmax)->Some_0.t.raw
            == sphere_root_near(s, r),
        !(tmin < sphere_root_near(s, r) < tmax) ==> sphere_hit_spec(s, r, tmin, tmax)->Some_0.t.raw
            == sphere_root_far(s, r),
{
}

/// The oriented normal of an accepted hit points against the incoming ray,
/// and with the hit point relative to the center: outward on a front-face
/// hit, inward on a back-face hit.
pub proof fn lemma_hit_normal_orientation(s: Sphere, r: Ray, tmin: int, tmax: int)
    requires
        sphere_wf(s),
        ray_wf(r),
        sphere_hit_spec(s, r, tmin, tmax).is_some(),
    ensures
        dot_raw(r.direction, sphere_hit_spec(s, r, tmin, tmax)->Some_0.normal) <= 0,
        sphere_hit_spec(s, r, tmin, tmax)->Some_0.front_face ==> dot_raw(
            sphere_hit_spec(s, r, tmin, tmax)->Some_0.normal,
            crate::vec3::sub_spec(sphere_hit_spec(s, r, tmin, tmax)->Some_0.p, s.center),
        ) > 0,
        !sphere_hit_spec(s, r, tmin, tmax)->Some_0.front_face ==> dot_raw(
            sphere_hit_spec(s, r, tmin, tmax)->Some_0.normal,
            crate::vec3::sub_spec(sphere_hit_spec(s, r, tmin, tmax)->Some_0.p, s.center),
        ) < 0,
{
    let h = sphere_hit_spec(s, r, tmin, tmax)->Some_0;
    let near = sphere_root_near(s, r);
    let far = sphere_root_far(s, r);
    let root = if tmin < near && near < tmax {
        near
    } else {
        far
    };
    let px = r.origin.x.raw + mul_raw(r.direction.x.raw as int, root);
    let py = r.origin.y.raw + mul_raw(r.direction.y.raw as int, root);
    let pz = r.origin.z.raw + mul_raw(r.direction.z.raw as int, root);
    let rad = s.radius.raw as int;
    let dx = px - s.center.x.raw;
    let dy = py - s.center.y.raw;
    let dz = pz - s.center.z.raw;
    let nx = dx * SCALE / rad;
    let ny = dy * SCALE / rad;
    let nz = dz * SCALE / rad;
    let outward = Vec3 { x: Fx { raw: nx as i64 }, y: Fx { raw: ny as i64 }, z: Fx { raw: nz as i64 } };
    let delta = crate::vec3::sub_spec(h.p, s.center);
    assert(delta.x.raw == dx && delta.y.raw == dy && delta.z.raw == dz);
    lemma_div_sign_term(dx, rad);
    lemma_div_sign_term(dy, rad);
    lemma_div_sign_term(dz, rad);
    assert(dot_raw(outward, delta) > 0) by {
        assert(!(nx == 0 && ny == 0 && nz == 0));
        if nx != 0 {
            assert(nx * dx >= 1);
        } else if ny != 0 {
            assert(ny * dy >= 1);
        } else {
            assert(nz * dz >= 1);
        }
    }
    lemma_dot_neg(outward, delta);
    assert(dot_raw(neg_spec(outward), delta) == dot_raw(outward, neg_spec(delta)))
        by (nonlinear_arith)
        requires
            neg_spec(outward).x.raw == -outward.x.raw,
            neg_spec(outward).y.raw == -outward.y.raw,
            neg_spec(outward).z.raw == -outward.z.raw,
            neg_spec(delta).x.raw == -delta.x.raw,
            neg_spec(delta).y.raw == -delta.y.raw,
            neg_spec(delta).z.raw == -delta.z.raw,
    ;
    if h.front_face {
        assert(h.normal == outward);
    } else {
        assert(h.normal == neg_spec(outward));
        assert(dot_raw(r.direction, h.normal) == -dot_raw(r.direction, outward)) by {
            lemma_dot_neg(r.direction, outward);
        }
    }
}

/// The sign of `(d * SCALE) / rad` matches the sign of `d`, and a nonzero
/// quotient forces a positive product with `d`.
proof fn lemma_div_sign_term(d: int, rad: int)
    requires
        rad >= 1,
        -0x2000_0000_0000 <= d <= 0x2000_0000_0000,
    ensures
        d == 0 ==> d * SCALE / rad == 0,
        d > 0 ==> 0 <= d * SCALE / rad && (d * SCALE / rad) * d >= 0,
        d < 0 ==> d * SCALE / rad <= 0 && (d * SCALE / rad) * d >= 0,
        d * SCALE / rad != 0 ==> (d * SCALE / rad) * d >= 1,
{
    let q = d * SCALE / rad;
    if d == 0 {
        vstd::arithmetic::div_mod::lemma_div_of0(rad);
    } else if d > 0 {
        vstd::arithmetic::div_mod::lemma_div_pos_is_pos(d * SCALE, rad);
        assert(q * d >= 0) by (nonlinear_arith)
            requires
                q >= 0,
                d > 0,
        ;
        if q != 0 {
            assert(q * d >= 1) by (nonlinear_arith)
                requires
                    q >= 1,
                    d >= 1,
            ;
        }
    } else {
        assert(d * SCALE <= -1) by (nonlinear_arith)
            requires
                d <= -1,
                SCALE >= 1,
        ;
        vstd::arithmetic::div_mod::lemma_div_is_ordered(d * SCALE, -1, rad);
        assert((-1) / rad <= 0) by {
            vstd::arithmetic::div_mod::lemma_div_is_ordered(-1, 0, rad);
            vstd::arithmetic::div_mod::lemma_div_of0(rad);
        }
        assert(q * d >= 0) by (nonlinear_arith)
            requires
                q <= 0,
                d < 0,
        ;
        if q != 0 {
            assert(q * d >= 1) by (nonlinear_arith)
                requires
                    q <= -1,
                    d <= -1,
            ;
        }
    }
}

} // verus!
