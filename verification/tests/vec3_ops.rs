use rt::vec3::Vec3;
use rt::SCALE;

/// One whole unit in fixed-point form.
const S: i64 = SCALE;

fn v(x: i64, y: i64, z: i64) -> Vec3 {
    Vec3::new(x * S, y * S, z * S)
}

#[test]
fn vec3_test_negate() {
    assert_eq!(v(-1, -2, -3), v(1, 2, 3).neg());
}

#[test]
fn vec3_test_arithmatic() {
    assert_eq!(v(2, -4, 6), v(1, -2, 3).add(v(1, -2, 3)));
    assert_eq!(v(2, -4, 6), v(3, -6, 9).sub(v(1, -2, 3)));
    assert_eq!(v(2, -4, 6), v(2, 2, 2).mul(v(1, -2, 3)));
    assert_eq!(v(2, -4, 6), v(2, 8, 18).div(v(1, -2, 3)));

    assert_eq!(v(6, -12, 18), v(3, -6, 9).scale(2 * S));
    assert_eq!(v(6, -12, 18), v(3, -6, 9).scale(2 * S));
    assert_eq!(v(1, -2, 3), v(3, -6, 9).div_scalar(3 * S));

    assert_eq!(50 * S, v(3, 4, -5).squared_length());
    assert_eq!(5 * S, v(3, -4, 0).length());
    let u = v(3, -4, 0).unit_vector();
    assert_eq!(Vec3::new(3 * S / 5, -4 * S / 5, 0), u);
}

#[test]
fn lib_test_negate() {
    assert_eq!(v(-1, -2, -3), v(1, 2, 3).neg());
}

#[test]
fn lib_test_arithmatic() {
    assert_eq!(v(2, -4, 6), v(1, -2, 3).add(v(1, -2, 3)));
    assert_eq!(v(2, -4, 6), v(1, -2, 3).add(v(1, -2, 3)));
    assert_eq!(v(2, -4, 6), v(1, -2, 3).add(v(1, -2, 3)));
    assert_eq!(v(2, -4, 6), v(1, -2, 3).add(v(1, -2, 3)));

    assert_eq!(v(2, -4, 6), v(3, -6, 9).sub(v(1, -2, 3)));
    assert_eq!(v(2, -4, 6), v(2, 2, 2).mul(v(1, -2, 3)));
    assert_eq!(v(2, -4, 6), v(2, 8, 18).div(v(1, -2, 3)));

    assert_eq!(v(6, -12, 18), v(3, -6, 9).scale(2 * S));
    assert_eq!(v(6, -12, 18), v(3, -6, 9).scale(2 * S));
    assert_eq!(v(6, -12, 18), v(3, -6, 9).scale(2 * S));
    assert_eq!(v(6, -12, 18), v(3, -6, 9).scale(2 * S));
    assert_eq!(v(1, -2, 3), v(3, -6, 9).div_scalar(3 * S));
    assert_eq!(v(1, -2, 3), v(3, -6, 9).div_scalar(3 * S));

    assert_eq!(50 * S, v(3, 4, -5).squared_length());
    assert_eq!(5 * S, v(3, -4, 0).length());
    assert_eq!(Vec3::new(3 * S / 5, -4 * S / 5, 0), v(3, -4, 0).unit_vector());
}

#[test]
fn test_dot_cross() {
    assert_eq!(10 * S, Vec3::dot(v(1, 2, 3), v(3, 2, 1)));
    assert_eq!(v(0, 0, 1), Vec3::cross(v(1, 0, 0), v(0, 1, 0)));
}

#[test]
fn dot_is_symmetric() {
    let a = Vec3::new(12345, -777, 3 * S);
    let b = Vec3::new(-S, 98765, 4321);
    assert_eq!(Vec3::dot(a, b), Vec3::dot(b, a));
}

#[test]
fn unit_vector_has_unit_length() {
    let p = v(3, -4, 0).unit_vector().length();
    assert!((p - S).abs() <= 4, "unit length was {p}");
    // A direction with an irrational length normalizes to within a few
    // fixed-point steps of one unit.
    let u = Vec3::new(S, S, S).unit_vector();
    let len = u.length();
    assert!((len - S).abs() <= 4, "unit length was {len}");
    let w = Vec3::new(7 * S + 123, -2 * S, 5 * S - 99).unit_vector().length();
    assert!((w - S).abs() <= 4, "unit length was {w}");
}

#[test]
fn accessors_and_sqrt() {
    let c = v(4, 9, 16);
    assert_eq!(4 * S, c.x());
    assert_eq!(9 * S, c.y());
    assert_eq!(16 * S, c.z());
    assert_eq!(4 * S, c.r());
    assert_eq!(9 * S, c.g());
    assert_eq!(16 * S, c.b());
    assert_eq!(v(2, 3, 4), c.sqrt());
    assert_eq!(Vec3::new(0, 0, 0), Vec3::zero());
}
