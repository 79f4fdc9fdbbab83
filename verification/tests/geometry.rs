//! Sphere intersection and nearest-hit selection.

use raytracer::fixed::Fx;
use raytracer::hittable::HitRecord;
use raytracer::hittable_list::{HittableList, HittableObject};
use raytracer::interval::Interval;
use raytracer::material::Material;
use raytracer::ray::Ray;
use raytracer::sphere::Sphere;
use raytracer::vec3::Vec3;

fn v(x: f64, y: f64, z: f64) -> Vec3 {
    Vec3 {
        x: Fx { raw: (x * 65536.0).round() as i64 },
        y: Fx { raw: (y * 65536.0).round() as i64 },
        z: Fx { raw: (z * 65536.0).round() as i64 },
    }
}

fn gray() -> Material {
    Material::Lambertian { albedo: v(0.5, 0.5, 0.5) }
}

fn blank_record() -> HitRecord {
    HitRecord {
        front_face: false,
        mat: gray(),
        normal: v(0.0, 0.0, 1.0),
        p: v(0.0, 0.0, 0.0),
        t: Fx { raw: 0 },
    }
}

#[test]
fn sphere_hit_exact_parameter_and_normal() {
    let s = Sphere::new(v(0.0, 0.0, -2.0), Fx::one(), gray());
    let obj = HittableObject::Sphere(s);
    let ray = Ray::new(v(0.0, 0.0, 0.0), v(0.0, 0.0, -1.0));
    let mut rec = blank_record();
    let hit = obj.hit(
        &ray,
        Interval::new(Fx { raw: 66 }, Fx::from_int(1000)),
        &mut rec,
    );
    assert!(hit);
    // nearer root: t = 1, exactly representable
    assert_eq!(rec.t.raw, 65536);
    assert_eq!(rec.p, v(0.0, 0.0, -1.0));
    // unit outward normal, oriented against the ray
    assert_eq!(rec.normal, v(0.0, 0.0, 1.0));
    assert!(rec.front_face);
    let d = rec.p.sub(s.center);
    assert!(raytracer::vec3::dot(&rec.normal, &d).raw > 0);
}

#[test]
fn sphere_hit_takes_far_root_when_inside() {
    // origin inside the sphere: the near root is behind the interval start
    let s = Sphere::new(v(0.0, 0.0, -1.0), Fx::from_int(2), gray());
    let obj = HittableObject::Sphere(s);
    let ray = Ray::new(v(0.0, 0.0, 0.0), v(0.0, 0.0, -1.0));
    let mut rec = blank_record();
    let hit = obj.hit(
        &ray,
        Interval::new(Fx { raw: 66 }, Fx::from_int(1000)),
        &mut rec,
    );
    assert!(hit);
    // far root: t = 3
    assert_eq!(rec.t.raw, 3 * 65536);
    assert!(!rec.front_face);
}

#[test]
fn no_false_hit_when_closest_approach_exceeds_radius() {
    let s = Sphere::new(v(0.0, 3.0, -5.0), Fx::one(), gray());
    let obj = HittableObject::Sphere(s);
    let ray = Ray::new(v(0.0, 0.0, 0.0), v(0.0, 0.0, -1.0));
    let mut rec = blank_record();
    for max in [1i64, 10, 1000, i64::MAX / 65536] {
        let hit = obj.hit(
            &ray,
            Interval::new(Fx { raw: -1000 * 65536 }, Fx { raw: max * 65536 }),
            &mut rec,
        );
        assert!(!hit);
    }
}

#[test]
fn zero_radius_sphere_is_never_hit() {
    let s = Sphere::new(v(0.0, 0.0, -2.0), Fx::from_int(-3), gray());
    assert_eq!(s.radius.raw, 0);
    let obj = HittableObject::Sphere(s);
    let ray = Ray::new(v(0.0, 0.0, 0.0), v(0.0, 0.0, -1.0));
    let mut rec = blank_record();
    assert!(!obj.hit(&ray, Interval::new(Fx { raw: 66 }, Fx::from_int(1000)), &mut rec));
}

#[test]
fn nearest_hit_selected_among_overlapping_spheres() {
    let near_mat = Material::Lambertian { albedo: v(0.9, 0.1, 0.1) };
    let far_mat = Material::Lambertian { albedo: v(0.1, 0.9, 0.1) };
    let near = HittableObject::Sphere(Sphere::new(v(0.0, 0.0, -2.0), Fx::one(), near_mat));
    let far = HittableObject::Sphere(Sphere::new(v(0.0, 0.0, -5.0), Fx::one(), far_mat));
    let ray = Ray::new(v(0.0, 0.0, 0.0), v(0.0, 0.0, -1.0));

    // both orders give the record of the closer sphere
    for objs in [[near, far], [far, near]] {
        let mut world = HittableList::new();
        world.add(objs[0]);
        world.add(objs[1]);
        let mut rec = blank_record();
        let hit = world.hit(
            &ray,
            Interval::new(Fx { raw: 66 }, Fx::from_int(1000)),
            &mut rec,
        );
        assert!(hit);
        assert_eq!(rec.t.raw, 65536);
        assert_eq!(rec.mat, near_mat);
    }
}

#[test]
fn miss_leaves_record_untouched() {
    let s = HittableObject::Sphere(Sphere::new(v(0.0, 9.0, 0.0), Fx::one(), gray()));
    let mut world = HittableList::new();
    world.add(s);
    let ray = Ray::new(v(0.0, 0.0, 0.0), v(0.0, 0.0, -1.0));
    let mut rec = blank_record();
    let before = rec;
    assert!(!world.hit(&ray, Interval::new(Fx { raw: 66 }, Fx::from_int(1000)), &mut rec));
    assert_eq!(rec, before);
}

#[test]
fn interval_surrounds_contains_clamp() {
    let i = Interval::new(Fx::from_int(1), Fx::from_int(3));
    assert!(i.surrounds(Fx::from_int(2)));
    assert!(!i.surrounds(Fx::from_int(1)));
    assert!(i.contains(Fx::from_int(1)));
    assert!(!i.contains(Fx::from_int(4)));
    assert_eq!(i.clamp(Fx::from_int(9)), Fx::from_int(3));
    assert_eq!(i.clamp(Fx::from_int(-9)), Fx::from_int(1));
    assert_eq!(i.clamp(Fx::from_int(2)), Fx::from_int(2));
    let whole = Interval::default();
    assert_eq!(whole.min.raw, i64::MIN);
    assert_eq!(whole.max.raw, i64::MAX);
}

#[test]
fn ray_evaluates_points() {
    let r = Ray::new(v(1.0, 0.0, 0.0), v(0.0, 2.0, 0.0));
    assert_eq!(*r.origin(), v(1.0, 0.0, 0.0));
    assert_eq!(*r.direction(), v(0.0, 2.0, 0.0));
    assert_eq!(r.at(Fx::from_int(2)), v(1.0, 4.0, 0.0));
}

#[test]
fn empty_scene_never_hits() {
    let world = HittableList::new();
    let ray = Ray::new(v(0.0, 0.0, 0.0), v(0.0, 0.0, -1.0));
    let mut rec = blank_record();
    assert!(!world.hit(&ray, Interval::new(Fx { raw: 66 }, Fx::from_int(1000)), &mut rec));
}

#[test]
fn scene_well_formedness_is_checkable() {
    let mut world = HittableList::new();
    assert!(world.wf());
    world.add(HittableObject::Sphere(Sphere::new(v(0.0, 0.0, -2.0), Fx::one(), gray())));
    assert!(world.wf());
    // an out-of-band refraction index is rejected
    world.add(HittableObject::Sphere(Sphere::new(
        v(0.0, 0.0, -5.0),
        Fx::one(),
        Material::Dielectric { refraction_index: Fx::from_int(100) },
    )));
    assert!(!world.wf());
}
