//! The camera pipeline: shading recursion, deterministic two-row scene,
//! full renders, color encoding, trigonometry and the random source.

use raytracer::camera::Camera;
use raytracer::color::{channel_to_byte, linear_to_gamma, pixel_to_bytes};
use raytracer::fixed::Fx;
use raytracer::hittable_list::{HittableList, HittableObject};
use raytracer::material::Material;
use raytracer::ray::Ray;
use raytracer::rng::{rand_between, rand_unit, RandomSource};
use raytracer::sphere::Sphere;
use raytracer::trig::tan_half_deg;
use raytracer::vec3::{random_range, random_vec, Vec3};

fn v(x: f64, y: f64, z: f64) -> Vec3 {
    Vec3 {
        x: Fx { raw: (x * 65536.0).round() as i64 },
        y: Fx { raw: (y * 65536.0).round() as i64 },
        z: Fx { raw: (z * 65536.0).round() as i64 },
    }
}

fn fx(x: f64) -> Fx {
    Fx { raw: (x * 65536.0).round() as i64 }
}

fn close(a: Fx, b: f64, tol: f64) -> bool {
    (a.raw as f64 / 65536.0 - b).abs() <= tol
}

/// The scene of one small sphere over a large ground sphere.
fn two_sphere_scene() -> HittableList {
    let mut world = HittableList::new();
    world.add(HittableObject::Sphere(Sphere::new(
        v(0.0, 0.0, -1.0),
        fx(0.5),
        Material::Lambertian { albedo: v(0.5, 0.5, 0.5) },
    )));
    world.add(HittableObject::Sphere(Sphere::new(
        v(0.0, -100.5, -1.0),
        Fx::from_int(100),
        Material::Lambertian { albedo: v(0.8, 0.8, 0.0) },
    )));
    world
}

/// A pinhole camera at the origin looking down the negative `z` axis,
/// rendering two rows of three pixels.
fn pinhole_camera() -> Camera {
    Camera::new(
        fx(1.5),
        3,
        1,
        1,
        Fx::from_int(90),
        v(0.0, 0.0, 0.0),
        v(0.0, 0.0, -1.0),
        v(0.0, 1.0, 0.0),
        Fx { raw: 0 },
        Fx::one(),
    )
}

#[test]
fn depth_zero_returns_black() {
    let world = two_sphere_scene();
    let cam = {
        let mut c = pinhole_camera();
        assert!(c.config_ok());
        c.initialize();
        c
    };
    let mut rng = RandomSource::from_seed(3);
    // a ray that would hit, and one that would miss: both give exact black
    for dir in [v(0.0, 0.0, -1.0), v(0.0, 1.0, 0.0)] {
        let ray = Ray::new(v(0.0, 0.0, 0.0), dir);
        let c = cam.ray_color(&ray, 0, &world, &mut rng);
        assert_eq!(c, v(0.0, 0.0, 0.0));
    }
}

#[test]
fn two_row_scene_is_deterministic() {
    let world = two_sphere_scene();
    let mut cam = pinhole_camera();
    assert!(cam.config_ok());
    cam.initialize();
    assert_eq!(cam.image_height, 2);
    let mut rng = RandomSource::from_seed(11);
    let zero = v(0.0, 0.0, 0.0);

    // rays through the exact pixel centers, depth 1
    let mut colors = Vec::new();
    for j in 0..2u32 {
        for i in 0..3u32 {
            let ray = cam.ray_for(i, j, zero, zero);
            colors.push(cam.ray_color(&ray, 1, &world, &mut rng));
        }
    }
    // middle column hits the small sphere: scattered light is cut off at
    // depth one, leaving exact black
    assert_eq!(colors[1], zero);
    assert_eq!(colors[4], zero);
    // bottom corners hit the ground sphere
    assert_eq!(colors[3], zero);
    assert_eq!(colors[5], zero);
    // top corners miss everything: the sky gradient at unit height 1/3
    for c in [colors[0], colors[2]] {
        assert!(close(c.x, 2.0 / 3.0, 0.02));
        assert!(close(c.y, 0.8, 0.02));
        assert!(close(c.z, 1.0, 0.02));
    }
}

#[test]
fn render_produces_bounded_pixel_buffer() {
    let mut world = two_sphere_scene();
    world.add(HittableObject::Sphere(Sphere::new(
        v(1.0, 0.0, -1.0),
        fx(0.5),
        Material::Metal { albedo: v(0.8, 0.6, 0.2), fuzz: fx(0.5) },
    )));
    world.add(HittableObject::Sphere(Sphere::new(
        v(-1.0, 0.0, -1.0),
        fx(0.5),
        Material::Dielectric { refraction_index: fx(1.5) },
    )));
    let mut cam = Camera::new(
        fx(2.0),
        8,
        4,
        5,
        Fx::from_int(90),
        v(-2.0, 2.0, 1.0),
        v(0.0, 0.0, -1.0),
        v(0.0, 1.0, 0.0),
        fx(1.0),
        fx(3.4),
    );
    assert!(cam.config_ok());
    let mut rng = RandomSource::from_seed(42);
    let pixels = cam.render(&world, &mut rng);
    assert_eq!(cam.image_height, 4);
    assert_eq!(pixels.len(), 32);
    for p in &pixels {
        for c in [p.x, p.y, p.z] {
            assert!(0 <= c.raw && c.raw <= 65536);
        }
    }
    // the buffer encodes to in-range bytes
    for p in &pixels {
        let (r, g, b) = pixel_to_bytes(p);
        assert!(r <= 255 && g <= 255 && b <= 255);
    }
}

#[test]
fn gamma_is_exact_square_root() {
    assert_eq!(linear_to_gamma(fx(0.25)).raw, 32768);
    assert_eq!(linear_to_gamma(Fx::one()).raw, 65536);
    assert_eq!(linear_to_gamma(Fx { raw: 0 }).raw, 0);
    assert_eq!(linear_to_gamma(Fx::from_int(-2)).raw, 0);
}

#[test]
fn channel_bytes_scale_and_saturate() {
    assert_eq!(channel_to_byte(Fx { raw: 0 }), 0);
    assert_eq!(channel_to_byte(Fx { raw: 32768 }), 128);
    assert_eq!(channel_to_byte(Fx::one()), 255);
    assert_eq!(channel_to_byte(Fx::from_int(7)), 255);
    assert_eq!(channel_to_byte(Fx::from_int(-7)), 0);
}

#[test]
fn tangent_of_half_angle() {
    // tan(45 degrees) = 1, within the polynomial's tolerance
    let t = tan_half_deg(Fx::from_int(90));
    assert!((t.raw - 65536).abs() < 300);
    // tan(30 degrees) = 0.57735
    let t = tan_half_deg(Fx::from_int(60));
    assert!(close(t, 0.57735, 0.005));
    assert_eq!(tan_half_deg(Fx { raw: 0 }).raw, 0);
}

#[test]
fn random_draws_respect_their_ranges() {
    let mut rng = RandomSource::from_seed(1);
    // a bound of one leaves no choice
    for _ in 0..32 {
        assert_eq!(rng.next_below(1), 0);
    }
    for _ in 0..64 {
        let d = rng.next_below(17);
        assert!(d < 17);
        let u = rand_unit(&mut rng);
        assert!(0 <= u.raw && u.raw < 65536);
        let r = rand_between(Fx::from_int(-1), Fx::one(), &mut rng);
        assert!(-65536 <= r.raw && r.raw < 65536);
    }
}

#[test]
fn random_vectors_are_unit_like() {
    let mut rng = RandomSource::from_seed(5);
    for _ in 0..32 {
        let u = random_vec(&mut rng);
        assert!(!u.near_zero());
        for c in [u.x, u.y, u.z] {
            assert!(-65536 <= c.raw && c.raw <= 65536);
        }
        let p = raytracer::vec3::rand_in_unit_disk(&mut rng);
        assert_eq!(p.z.raw, 0);
        let ls = (p.x.raw * p.x.raw + p.y.raw * p.y.raw) as i128;
        assert!(ls < 65536i128 * 65536);
        let q = random_range(Fx::from_int(-2), Fx::from_int(2), &mut rng);
        for c in [q.x, q.y, q.z] {
            assert!(-2 * 65536 <= c.raw && c.raw < 2 * 65536);
        }
    }
}

#[test]
fn defocus_camera_samples_near_center() {
    let mut cam = pinhole_camera();
    cam.defocus_angle = Fx::from_int(10);
    assert!(cam.config_ok());
    cam.initialize();
    let mut rng = RandomSource::from_seed(9);
    for _ in 0..16 {
        let p = cam.defocus_disk_sample(&mut rng);
        // the lens has radius tan(5 degrees), well under a tenth
        assert!(close(p.x, 0.0, 0.1));
        assert!(close(p.y, 0.0, 0.1));
        assert!(close(p.z, 0.0, 0.1));
    }
    let ray = cam.get_ray(1, 0, &mut rng);
    assert!(!ray.direction.near_zero());
}

#[test]
fn default_camera_needs_configuration() {
    let cam: Camera = Default::default();
    assert_eq!(cam.image_width, 100);
    assert_eq!(cam.samples_per_pixel, 10);
    assert_eq!(cam.max_depth, 10);
    // the zeroed view axis is rejected until the caller sets it
    assert!(!cam.config_ok());
}
