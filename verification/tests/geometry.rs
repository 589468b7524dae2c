use rt::hitable::{HitableList, Sphere};
use rt::material::{Lambertian, Material};
use rt::ray::Ray;
use rt::vec3::Vec3;
use rt::{SCALE, T_LIM};

const S: i64 = SCALE;

fn gray() -> Material {
    Material::Lambertian(Lambertian::new(Vec3::new(S / 2, S / 2, S / 2)))
}

fn down_z_ray() -> Ray {
    Ray::new(Vec3::new(0, 0, 0), Vec3::new(0, 0, -S))
}

#[test]
fn ray_point_at_parameter() {
    let r = Ray::new(Vec3::new(S, 2 * S, 3 * S), Vec3::new(0, 0, -S));
    assert_eq!(Vec3::new(S, 2 * S, 3 * S), r.origin());
    assert_eq!(Vec3::new(0, 0, -S), r.direction());
    assert_eq!(Vec3::new(S, 2 * S, S), r.point_at_parameter(2 * S));
}

#[test]
fn sphere_hit_through_center_at_distance_minus_radius() {
    // A unit ray through the center of a sphere three units away with
    // radius one enters at t = 3 - 1 = 2, exactly.
    let s = Sphere::new(Vec3::new(0, 0, -3 * S), S, gray());
    let hit = s.hit(&down_z_ray(), 66, T_LIM).expect("entry hit");
    assert_eq!(2 * S, hit.t());
    assert_eq!(Vec3::new(0, 0, -2 * S), hit.p());
    assert_eq!(Vec3::new(0, 0, S), hit.normal());
}

#[test]
fn sphere_hit_prefers_entry_root_over_exit() {
    // Starting inside the sphere, the smaller root is behind t_min, so the
    // exit root is taken instead.
    let s = Sphere::new(Vec3::new(0, 0, -S), 2 * S, gray());
    let hit = s.hit(&down_z_ray(), 66, T_LIM).expect("exit hit");
    assert_eq!(3 * S, hit.t());
}

#[test]
fn sphere_miss_when_closest_approach_exceeds_radius() {
    let s = Sphere::new(Vec3::new(3 * S, 0, -3 * S), S, gray());
    assert!(s.hit(&down_z_ray(), 66, T_LIM).is_none());
}

#[test]
fn sphere_tangent_ray_is_a_miss() {
    // The ray grazes the sphere at exactly one point: the discriminant is
    // zero and no hit is reported.
    let s = Sphere::new(Vec3::new(S, 0, -3 * S), S, gray());
    assert!(s.hit(&down_z_ray(), 66, T_LIM).is_none());
}

#[test]
fn sphere_negative_radius_flips_normal() {
    let s = Sphere::new(Vec3::new(0, 0, -3 * S), -S, gray());
    let hit = s.hit(&down_z_ray(), 66, T_LIM).expect("shell hit");
    assert_eq!(Vec3::new(0, 0, -S), hit.normal());
}

#[test]
fn empty_list_never_hits() {
    let world = HitableList::new();
    assert!(world.hit(&down_z_ray(), 66, T_LIM).is_none());
}

#[test]
fn list_returns_minimal_t_among_members() {
    let mut world = HitableList::new();
    world.push(Sphere::new(Vec3::new(0, 0, -9 * S), S, gray()));
    world.push(Sphere::new(Vec3::new(0, 0, -3 * S), S, gray()));
    world.push(Sphere::new(Vec3::new(0, 0, -6 * S), S, gray()));
    world.push(Sphere::new(Vec3::new(5 * S, 0, -3 * S), S, gray()));
    let hit = world.hit(&down_z_ray(), 66, T_LIM).expect("nearest hit");
    assert_eq!(2 * S, hit.t());
    assert_eq!(Vec3::new(0, 0, -2 * S), hit.p());
}

#[test]
fn list_respects_t_window() {
    let mut world = HitableList::new();
    world.push(Sphere::new(Vec3::new(0, 0, -3 * S), S, gray()));
    // The entry crossing at t = 2 is outside (t_min, t_max) = (eps, 1).
    assert!(world.hit(&down_z_ray(), 66, S).is_none());
}
