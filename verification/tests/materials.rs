//! Material scattering models.

use raytracer::fixed::Fx;
use raytracer::hittable::HitRecord;
use raytracer::material::{
    reflectance, scatter_dielectric, scatter_lambertian, scatter_metal, Material,
};
use raytracer::ray::Ray;
use raytracer::rng::RandomSource;
use raytracer::vec3::Vec3;

fn v(x: f64, y: f64, z: f64) -> Vec3 {
    Vec3 {
        x: Fx { raw: (x * 65536.0).round() as i64 },
        y: Fx { raw: (y * 65536.0).round() as i64 },
        z: Fx { raw: (z * 65536.0).round() as i64 },
    }
}

fn front_hit() -> HitRecord {
    HitRecord {
        front_face: true,
        mat: Material::Lambertian { albedo: v(0.5, 0.5, 0.5) },
        normal: v(0.0, 0.0, 1.0),
        p: v(0.0, 0.0, -1.0),
        t: Fx::one(),
    }
}

#[test]
fn lambertian_attenuation_is_albedo() {
    let albedo = v(0.3, 0.6, 0.9);
    let rec = front_hit();
    let unit = v(1.0, 0.0, 0.0);
    let sc = scatter_lambertian(albedo, &rec, unit);
    assert_eq!(sc.attenuation, albedo);
    assert_eq!(sc.scattered.origin, rec.p);
    assert_eq!(sc.scattered.direction, v(1.0, 0.0, 1.0));
}

#[test]
fn lambertian_degenerate_sum_falls_back_to_normal() {
    let rec = front_hit();
    let unit = v(0.0, 0.0, -1.0);
    let sc = scatter_lambertian(v(0.5, 0.5, 0.5), &rec, unit);
    assert_eq!(sc.scattered.direction, rec.normal);
}

#[test]
fn metal_reflects_and_keeps_albedo() {
    let albedo = v(0.8, 0.8, 0.8);
    let rec = front_hit();
    let r_in = Ray::new(v(0.0, 1.0, 0.0), v(1.0, 0.0, -1.0));
    let sc = scatter_metal(albedo, Fx { raw: 0 }, &r_in, &rec, v(1.0, 0.0, 0.0));
    let sc = sc.expect("reflection leaves the surface");
    assert_eq!(sc.attenuation, albedo);
    // reflection of (1,0,-1) about +z is (1,0,1), then normalized
    assert!(sc.scattered.direction.z.raw > 0);
    assert!(sc.scattered.direction.x.raw > 0);
    assert_eq!(sc.scattered.direction.y.raw, 0);
}

#[test]
fn metal_absorbs_when_reflection_enters_surface() {
    let rec = front_hit();
    // incoming along the normal: reflection points into the surface
    let r_in = Ray::new(v(0.0, 0.0, -2.0), v(0.0, 0.0, 1.0));
    let sc = scatter_metal(v(0.8, 0.8, 0.8), Fx { raw: 0 }, &r_in, &rec, v(1.0, 0.0, 0.0));
    assert!(sc.is_none());
}

#[test]
fn schlick_reflectance_at_normal_incidence() {
    // r0 = ((1 - 1.5) / (1 + 1.5))^2 = 0.04, and the angular term vanishes
    let r = reflectance(Fx::one(), Fx { raw: 98304 });
    assert_eq!(r.raw, 2621);
}

#[test]
fn dielectric_matched_index_refracts_straight_through() {
    let rec = front_hit();
    let r_in = Ray::new(v(0.0, 0.0, 0.0), v(0.0, 0.0, -1.0));
    // matched index, normal incidence, worst-case draw of zero
    let sc = scatter_dielectric(Fx::one(), &r_in, &rec, Fx { raw: 0 });
    let sc = sc.expect("a dielectric always scatters");
    assert_eq!(sc.attenuation, v(1.0, 1.0, 1.0));
    assert_eq!(sc.scattered.direction, v(0.0, 0.0, -1.0));
}

#[test]
fn dielectric_total_internal_reflection() {
    // exiting glass at a grazing angle: ratio * sin(theta) > 1 forces a
    // reflection whatever the draw
    let rec = HitRecord { front_face: false, ..front_hit() };
    let r_in = Ray::new(v(0.0, 0.0, 0.0), v(1.0, 0.0, -0.3));
    let sc = scatter_dielectric(Fx { raw: 98304 }, &r_in, &rec, Fx { raw: 65535 });
    let sc = sc.expect("reflection is still a scatter");
    // reflected about +z: the z component flips sign
    assert!(sc.scattered.direction.z.raw > 0);
    assert!(sc.scattered.direction.x.raw > 0);
}

#[test]
fn scatter_dispatches_by_material_kind() {
    let mut rng = RandomSource::from_seed(7);
    let rec = front_hit();
    let r_in = Ray::new(v(0.0, 0.0, 0.0), v(0.0, 0.0, -1.0));
    let lam = Material::Lambertian { albedo: v(0.2, 0.4, 0.6) };
    let sc = lam.scatter(&r_in, &rec, &mut rng).expect("diffuse never absorbs");
    assert_eq!(sc.attenuation, v(0.2, 0.4, 0.6));
    assert_eq!(sc.scattered.origin, rec.p);

    let glass = Material::Dielectric { refraction_index: Fx::one() };
    let sc = glass.scatter(&r_in, &rec, &mut rng).expect("matched glass refracts");
    assert_eq!(sc.attenuation, v(1.0, 1.0, 1.0));
    assert_eq!(sc.scattered.direction, v(0.0, 0.0, -1.0));
}

#[test]
fn default_material_is_black_diffuse() {
    let m: Material = Default::default();
    assert_eq!(m, Material::Lambertian { albedo: v(0.0, 0.0, 0.0) });
}
