use rt::camera::Camera;
use rt::hitable::{HitableList, Sphere};
use rt::material::{Lambertian, Material};
use rt::ray::Ray;
use rt::tracer::{background, color, MAX_DEPTH, T_EPS};
use rt::vec3::Vec3;
use rt::{SCALE, T_LIM};

const S: i64 = SCALE;

#[test]
fn background_gradient_is_exact() {
    // Straight up: t = 1, pure sky blue.
    let up = Ray::new(Vec3::new(0, 0, 0), Vec3::new(0, S, 0));
    assert_eq!(Vec3::new(S / 2, 45875, S), background(&up));
    // Straight down: t = 0, pure white.
    let down = Ray::new(Vec3::new(0, 0, 0), Vec3::new(0, -S, 0));
    assert_eq!(Vec3::new(S, S, S), background(&down));
    // Horizontal: t = 1/2, the midpoint blend.
    let level = Ray::new(Vec3::new(0, 0, 0), Vec3::new(S, 0, 0));
    let t = S / 2;
    let expected = Vec3::new(
        S - t + t * (S / 2) / S,
        S - t + t * 45875 / S,
        S - t + t,
    );
    assert_eq!(expected, background(&level));
}

#[test]
fn color_of_a_ray_that_hits_nothing_is_the_background() {
    let world = HitableList::new();
    let r = Ray::new(Vec3::new(0, 0, 0), Vec3::new(S / 3, 7 * S / 11, -S));
    assert_eq!(background(&r), color(&r, &world, 0));
}

#[test]
fn color_at_depth_limit_is_black() {
    let mut world = HitableList::new();
    world.push(Sphere::new(
        Vec3::new(0, 0, -3 * S),
        S,
        Material::Lambertian(Lambertian::new(Vec3::new(S / 2, S / 2, S / 2))),
    ));
    let r = Ray::new(Vec3::new(0, 0, 0), Vec3::new(0, 0, -S));
    assert_eq!(Vec3::new(0, 0, 0), color(&r, &world, MAX_DEPTH));
    assert_eq!(Vec3::new(0, 0, 0), color(&r, &world, 255));
}

#[test]
fn color_components_stay_in_unit_range() {
    let mut world = HitableList::new();
    world.push(Sphere::new(
        Vec3::new(0, 0, -3 * S),
        S,
        Material::Lambertian(Lambertian::new(Vec3::new(S / 2, S / 2, S / 2))),
    ));
    world.push(Sphere::new(
        Vec3::new(0, -101 * S / 100 - 3 * S, -3 * S),
        3 * S,
        Material::Lambertian(Lambertian::new(Vec3::new(S / 2, S / 2, S / 2))),
    ));
    for k in 0..32 {
        let r = Ray::new(
            Vec3::new(0, 0, 0),
            Vec3::new((k - 16) * S / 16, (k % 7) * S / 7 - S / 2, -S),
        );
        let c = color(&r, &world, 0);
        assert!(0 <= c.x() && c.x() <= S);
        assert!(0 <= c.y() && c.y() <= S);
        assert!(0 <= c.z() && c.z() <= S);
    }
}

#[test]
fn single_sphere_scene_registers_hit_through_image_center() {
    // One Lambertian sphere of radius one half at (0, 0, -1), the camera at
    // the origin looking down the negative z axis: the center ray hits the
    // sphere before falling through to the background.
    let mut world = HitableList::new();
    world.push(Sphere::new(
        Vec3::new(0, 0, -S),
        S / 2,
        Material::Lambertian(Lambertian::new(Vec3::new(S / 2, S / 2, S / 2))),
    ));
    let cam = Camera::axis_aligned(4 * S, 2 * S, S);
    let r = cam.get_ray(S / 2, S / 2);
    assert_eq!(Vec3::new(0, 0, 0), r.origin());
    assert_eq!(Vec3::new(0, 0, -S), r.direction());
    let hit = world.hit(&r, T_EPS, T_LIM).expect("center ray hits the sphere");
    assert_eq!(S / 2, hit.t());
    let shaded = color(&r, &world, 0);
    assert_ne!(background(&r), shaded);
}

#[test]
fn full_camera_builds_the_expected_basis() {
    let cam = Camera::new(
        Vec3::new(0, 0, S),
        Vec3::new(0, 0, 0),
        Vec3::new(0, S, 0),
        S,
        S,
        0,
        S,
    );
    assert_eq!(Vec3::new(0, 0, S), cam.w);
    assert_eq!(Vec3::new(S, 0, 0), cam.u);
    assert_eq!(Vec3::new(0, S, 0), cam.v);
    assert_eq!(Vec3::new(0, 0, S), cam.origin);
    assert_eq!(Vec3::new(-S, -S, 0), cam.lower_left_corner);
    assert_eq!(Vec3::new(2 * S, 0, 0), cam.horizontal);
    assert_eq!(Vec3::new(0, 2 * S, 0), cam.vertical);
    assert_eq!(0, cam.lens_radius);
    let center = cam.get_ray(S / 2, S / 2);
    assert_eq!(Vec3::new(0, 0, S), center.origin());
    assert_eq!(Vec3::new(0, 0, -S), center.direction());
}

#[test]
fn lens_camera_jitters_origin_within_aperture() {
    let cam = Camera::new(
        Vec3::new(0, 0, S),
        Vec3::new(0, 0, 0),
        Vec3::new(0, S, 0),
        S,
        S,
        S / 2,
        S,
    );
    assert_eq!(S / 4, cam.lens_radius);
    for _ in 0..16 {
        let r = cam.get_ray(S / 2, S / 2);
        let off_x = r.origin().x();
        let off_y = r.origin().y();
        assert!(off_x.abs() <= S / 4 && off_y.abs() <= S / 4);
    }
}
