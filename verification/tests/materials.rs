use rt::hitable::{HitableList, Sphere};
use rt::material::{reflect, refract, schlick, Dielectric, Lambertian, Material, Metal};
use rt::ray::Ray;
use rt::sample::{random_in_unit_disk, random_in_unit_sphere};
use rt::vec3::Vec3;
use rt::{SCALE, T_LIM};

const S: i64 = SCALE;

#[test]
fn reflect_at_normal_incidence_negates_direction() {
    let n = Vec3::new(0, 0, S);
    let v = Vec3::new(0, 0, -S);
    assert_eq!(n, reflect(&v, &n));
}

#[test]
fn reflect_oblique_direction() {
    // (1, -1, 0) off the floor normal (0, 1, 0) reflects to (1, 1, 0).
    let r = reflect(&Vec3::new(S, -S, 0), &Vec3::new(0, S, 0));
    assert_eq!(Vec3::new(S, S, 0), r);
}

fn hit_on_plane_like_sphere() -> rt::hitable::HitRecord {
    // A head-on hit of a large sphere acting as a flat mirror.
    let s = Sphere::new(
        Vec3::new(0, 0, -4 * S),
        2 * S,
        Material::Metal(Metal::new(Vec3::new(S, S, S), 0)),
    );
    let r = Ray::new(Vec3::new(0, 0, 0), Vec3::new(0, 0, -S));
    s.hit(&r, 66, T_LIM).expect("mirror hit")
}

#[test]
fn metal_mirror_reflects_straight_back() {
    let hit = hit_on_plane_like_sphere();
    let m = Metal::new(Vec3::new(S, S, S), 0);
    let r = Ray::new(Vec3::new(0, 0, 0), Vec3::new(0, 0, -S));
    let (att, scattered) = m.scatter(&r, &hit).expect("mirror scatters");
    assert_eq!(Vec3::new(S, S, S), att);
    assert_eq!(hit.p(), scattered.origin());
    // Normal incidence: the reflection is the exact negation of the
    // incoming direction.
    assert_eq!(Vec3::new(0, 0, S), scattered.direction());
}

#[test]
fn metal_rejects_reflection_into_the_surface() {
    // An incoming direction aligned with the normal reflects through the
    // surface; the scatter is rejected.
    let hit = hit_on_plane_like_sphere();
    let m = Metal::new(Vec3::new(S, S, S), 0);
    let r = Ray::new(Vec3::new(0, 0, 0), Vec3::new(0, 0, S));
    assert!(m.scatter(&r, &hit).is_none());
}

#[test]
fn metal_new_clamps_out_of_range_fuzz() {
    assert_eq!(S, Metal::new(Vec3::new(0, 0, 0), 2 * S).fuzz);
    assert_eq!(S, Metal::new(Vec3::new(0, 0, 0), -1).fuzz);
    assert_eq!(S / 2, Metal::new(Vec3::new(0, 0, 0), S / 2).fuzz);
}

#[test]
fn schlick_at_head_on_incidence_is_r0() {
    let ref_idx = 3 * S / 2;
    let t = (S - ref_idx) * S / (S + ref_idx);
    let r0 = t * t / S;
    assert_eq!(r0, schlick(S, ref_idx));
}

#[test]
fn schlick_at_grazing_incidence_is_one() {
    assert_eq!(S, schlick(0, 3 * S / 2));
    assert_eq!(S, schlick(0, 2 * S));
}

#[test]
fn refraction_bends_a_head_on_ray_not_at_all() {
    let n = Vec3::new(0, 0, S);
    let v = Vec3::new(0, 0, -S);
    // Head-on, the refracted ray continues straight through.
    let refr = refract(&v, &n, 2 * S / 3).expect("refracts");
    assert!(refr.z < 0 && refr.x == 0 && refr.y == 0);
}

#[test]
fn total_internal_reflection_never_refracts() {
    // Leaving a dense medium at a grazing angle with ratio 2: the
    // discriminant is negative and no refracted ray exists.
    let n = Vec3::new(0, 0, S);
    let v = Vec3::new(4 * S, 0, -S);
    assert!(refract(&v, &n, 2 * S).is_none());
}

#[test]
fn dielectric_always_scatters_white() {
    let s = Sphere::new(
        Vec3::new(0, 0, -4 * S),
        2 * S,
        Material::Dielectric(Dielectric::new(3 * S / 2)),
    );
    let r = Ray::new(Vec3::new(0, 0, 0), Vec3::new(0, 0, -S));
    let hit = s.hit(&r, 66, T_LIM).expect("glass hit");
    let d = Dielectric::new(3 * S / 2);
    for _ in 0..32 {
        let (att, scattered) = d.scatter(&r, &hit);
        assert_eq!(Vec3::new(S, S, S), att);
        assert_eq!(hit.p(), scattered.origin());
    }
}

#[test]
fn lambertian_always_scatters_with_albedo() {
    let albedo = Vec3::new(S / 2, S / 4, S / 8);
    let l = Lambertian::new(albedo);
    let s = Sphere::new(Vec3::new(0, 0, -4 * S), 2 * S, Material::Lambertian(l));
    let r = Ray::new(Vec3::new(0, 0, 0), Vec3::new(0, 0, -S));
    let hit = s.hit(&r, 66, T_LIM).expect("diffuse hit");
    for _ in 0..32 {
        let (att, scattered) = l.scatter(&r, &hit);
        assert_eq!(albedo, att);
        assert_eq!(hit.p(), scattered.origin());
        // The bounce leaves toward the normal side: normal + unit-ball
        // sample has a positive component along the normal here.
        let d = scattered.direction();
        assert!(d.z() > -S);
    }
}

#[test]
fn unit_ball_samples_stay_inside() {
    let mut saw_nonzero = false;
    for _ in 0..256 {
        let p = random_in_unit_sphere();
        assert!(p.squared_length() < S);
        let q = random_in_unit_disk();
        assert!(q.squared_length() < S);
        assert_eq!(0, q.z());
        if p != Vec3::zero() || q != Vec3::zero() {
            saw_nonzero = true;
        }
    }
    // A draw lands exactly at the center only with vanishing probability:
    // the sampler produces genuine points, not a fixed fallback.
    assert!(saw_nonzero);
}

#[test]
fn material_dispatch_matches_variants() {
    let albedo = Vec3::new(S / 2, S / 2, S / 2);
    let s = Sphere::new(
        Vec3::new(0, 0, -4 * S),
        2 * S,
        Material::Lambertian(Lambertian::new(albedo)),
    );
    let r = Ray::new(Vec3::new(0, 0, 0), Vec3::new(0, 0, -S));
    let hit = s.hit(&r, 66, T_LIM).expect("hit");
    let (att, _) = Material::Lambertian(Lambertian::new(albedo))
        .scatter(&r, &hit)
        .expect("diffuse always scatters");
    assert_eq!(albedo, att);
    let (att, _) = Material::Dielectric(Dielectric::new(3 * S / 2))
        .scatter(&r, &hit)
        .expect("glass always scatters");
    assert_eq!(Vec3::new(S, S, S), att);
}

#[test]
fn world_of_mixed_materials_reports_nearest() {
    let mut world = HitableList::new();
    world.push(Sphere::new(
        Vec3::new(0, 0, -3 * S),
        S,
        Material::Metal(Metal::new(Vec3::new(S, S, S), 0)),
    ));
    world.push(Sphere::new(
        Vec3::new(0, 0, -8 * S),
        S,
        Material::Dielectric(Dielectric::new(3 * S / 2)),
    ));
    let r = Ray::new(Vec3::new(0, 0, 0), Vec3::new(0, 0, -S));
    let hit = world.hit(&r, 66, T_LIM).expect("hit");
    assert_eq!(2 * S, hit.t());
    assert!(Vec3::dot(hit.normal(), r.direction()) < 0);
}
