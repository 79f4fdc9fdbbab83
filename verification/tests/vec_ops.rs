//! Componentwise vector arithmetic.

use raytracer::fixed::Fx;
use raytracer::vec3::Vec3;

fn v(x: f64, y: f64, z: f64) -> Vec3 {
    Vec3 {
        x: Fx { raw: (x * 65536.0).round() as i64 },
        y: Fx { raw: (y * 65536.0).round() as i64 },
        z: Fx { raw: (z * 65536.0).round() as i64 },
    }
}

#[test]
fn test_div() {
    let v1 = v(2.0, 2.0, 2.0);
    let v2 = v1;
    let result = v(1.0, 1.0, 1.0);

    assert_eq!(v1.div_scalar(Fx::from_int(2)), result);
    assert_eq!(v1.div_vec(v2), result);
}

#[test]
fn test_mul() {
    let v1 = v(2.0, 2.0, 2.0);
    let v2 = v1;
    let result = v(4.0, 4.0, 4.0);

    assert_eq!(v1.scale(Fx::from_int(2)), result);
    assert_eq!(v1.mul_vec(v2), result);
}

#[test]
fn test_sub() {
    let v1 = v(2.0, 2.0, 2.0);
    let v2 = v1;
    let result = v(0.0, 0.0, 0.0);

    assert_eq!(v1.sub(v2), result);
}

#[test]
fn test_add() {
    let v1 = v(2.0, 2.0, 2.0);
    let v2 = v1;
    let result = v(4.0, 4.0, 4.0);

    assert_eq!(v1.add(v2), result);
}

#[test]
fn dot_cross_length_exact() {
    let a = v(1.0, 2.0, 3.0);
    let b = v(4.0, -5.0, 6.0);
    assert_eq!(raytracer::vec3::dot(&a, &b).raw, (4 - 10 + 18) * 65536);
    let c = raytracer::vec3::cross(&a, &b);
    assert_eq!(c, v(27.0, 6.0, -13.0));
    let d = v(3.0, 4.0, 0.0);
    assert_eq!(d.length().raw, 5 * 65536);
    assert_eq!(d.length_squared().raw, 25 * 65536);
}

#[test]
fn normalize_is_unit_like() {
    let d = v(3.0, 4.0, 0.0);
    let n = d.normalize();
    assert_eq!(n.x.raw, 39321);
    assert_eq!(n.y.raw, 52428);
    assert_eq!(n.z.raw, 0);
    assert!(!n.near_zero());
}

#[test]
fn reflect_mirrors_about_normal() {
    let incoming = v(1.0, -1.0, 0.0);
    let normal = v(0.0, 1.0, 0.0);
    let r = raytracer::vec3::reflect(&incoming, &normal);
    assert_eq!(r, v(1.0, 1.0, 0.0));
}

#[test]
fn refract_matched_index_keeps_direction() {
    let uv = v(0.0, 0.0, -1.0);
    let n = v(0.0, 0.0, 1.0);
    let r = raytracer::vec3::refract(&uv, &n, Fx::one());
    assert_eq!(r, v(0.0, 0.0, -1.0));
}

#[test]
fn near_zero_is_componentwise() {
    assert!(v(0.0, 0.0, 0.0).near_zero());
    assert!(!Vec3 { x: Fx { raw: 1 }, y: Fx { raw: 0 }, z: Fx { raw: 0 } }.near_zero());
}
