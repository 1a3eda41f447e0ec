use raytracer::fixed::ONE;
use raytracer::geometry::{ray_sphere_intersection, Ray, Sphere};
use raytracer::vector::{Vector3, COORD_MAX};

fn unit_sphere_at_ten() -> Sphere {
    Sphere { center: Vector3::new(0, 0, 10 * ONE), radius: ONE }
}

fn ray_from_origin(x: i64, y: i64, z: i64) -> Ray {
    Ray { origin: Vector3::new(0, 0, 0), direction: Vector3::new(x, y, z) }
}

#[test]
fn hit_is_reported_at_the_entry_point() {
    let hit = ray_sphere_intersection(&ray_from_origin(0, 0, ONE), &unit_sphere_at_ten());
    assert_eq!(hit, Some(9 * ONE));
    assert_ne!(hit, Some(11 * ONE));
}

#[test]
fn ray_to_the_side_misses() {
    let hit = ray_sphere_intersection(&ray_from_origin(ONE, 0, 0), &unit_sphere_at_ten());
    assert_eq!(hit, None);
}

#[test]
fn sphere_behind_the_origin_is_not_hit() {
    let behind = Sphere { center: Vector3::new(0, 0, -10 * ONE), radius: ONE };
    assert_eq!(ray_sphere_intersection(&ray_from_origin(0, 0, ONE), &behind), None);
    assert_eq!(ray_sphere_intersection(&ray_from_origin(0, 0, -ONE), &unit_sphere_at_ten()), None);
}

#[test]
fn sphere_behind_is_not_hit_though_the_line_meets_it() {
    let behind = Sphere { center: Vector3::new(0, 0, -10 * ONE), radius: ONE };
    let forward = ray_from_origin(0, 0, ONE);
    let backward = ray_from_origin(0, 0, -ONE);
    assert_eq!(ray_sphere_intersection(&backward, &behind), Some(9 * ONE));
    assert_eq!(ray_sphere_intersection(&forward, &behind), None);
}

#[test]
fn origin_inside_the_sphere_sees_the_exit_point() {
    let ray = Ray { origin: Vector3::new(0, 0, 10 * ONE), direction: Vector3::new(0, 0, ONE) };
    assert_eq!(ray_sphere_intersection(&ray, &unit_sphere_at_ten()), Some(ONE));
}

#[test]
fn tangent_ray_touches_the_sphere() {
    let touching = Sphere { center: Vector3::new(ONE, 0, 10 * ONE), radius: ONE };
    assert_eq!(ray_sphere_intersection(&ray_from_origin(0, 0, ONE), &touching), Some(10 * ONE));
    let beside = Sphere { center: Vector3::new(ONE + 1, 0, 10 * ONE), radius: ONE };
    assert_eq!(ray_sphere_intersection(&ray_from_origin(0, 0, ONE), &beside), None);
}

#[test]
fn off_center_hit_distance() {
    let offset = Sphere { center: Vector3::new(ONE / 2, 0, 10 * ONE), radius: ONE };
    assert_eq!(ray_sphere_intersection(&ray_from_origin(0, 0, ONE), &offset), Some(9_133_974));
}

#[test]
fn oblique_ray_hit_distance() {
    let ray = ray_from_origin(87_661, 0, 996_150);
    assert_eq!(ray_sphere_intersection(&ray, &unit_sphere_at_ten()), Some(9_480_373));
}

#[test]
fn point_along_a_ray() {
    let ray = ray_from_origin(87_661, 0, 996_150);
    assert_eq!(ray.at(9_480_373), Vector3::new(831_058, 0, 9_443_873));
    let shifted = Ray { origin: Vector3::new(5, -6, 7), direction: Vector3::new(0, 0, ONE) };
    assert_eq!(shifted.at(3 * ONE), Vector3::new(5, -6, 3 * ONE + 7));
    assert_eq!(shifted.at(0), Vector3::new(5, -6, 7));
}

#[test]
fn normal_points_away_from_the_center() {
    let sphere = unit_sphere_at_ten();
    assert_eq!(sphere.normal_at(&Vector3::new(0, 0, 9 * ONE)), Vector3::new(0, 0, -ONE));
    assert_eq!(sphere.normal_at(&Vector3::new(0, ONE, 10 * ONE)), Vector3::new(0, ONE, 0));
    assert_eq!(sphere.normal_at(&Vector3::new(831_058, 0, 9_443_873)), Vector3::new(831_085, 0, -556_145));
}

#[test]
fn well_formed_spheres() {
    assert!(unit_sphere_at_ten().is_well_formed());
    assert!(Sphere { center: Vector3::new(COORD_MAX, -COORD_MAX, 0), radius: COORD_MAX }.is_well_formed());
    assert!(!Sphere { center: Vector3::new(0, 0, 10 * ONE), radius: 0 }.is_well_formed());
    assert!(!Sphere { center: Vector3::new(0, 0, 10 * ONE), radius: -ONE }.is_well_formed());
    assert!(!Sphere { center: Vector3::new(0, 0, 10 * ONE), radius: COORD_MAX + 1 }.is_well_formed());
    assert!(!Sphere { center: Vector3::new(0, COORD_MAX + 1, 0), radius: ONE }.is_well_formed());
}

#[test]
fn well_formed_rays() {
    assert!(ray_from_origin(0, 0, ONE).is_well_formed());
    assert!(ray_from_origin(87_661, 0, 996_150).is_well_formed());
    assert!(!ray_from_origin(0, 0, 2 * ONE).is_well_formed());
    assert!(!ray_from_origin(0, 0, 0).is_well_formed());
    assert!(!Ray { origin: Vector3::new(COORD_MAX + 1, 0, 0), direction: Vector3::new(0, 0, ONE) }.is_well_formed());
}

#[test]
fn new_sphere_is_made_if_well_formed() {
    let sphere = Sphere::new(Vector3::new(0, 0, 10 * ONE), ONE).unwrap();
    assert_eq!(sphere.center, Vector3::new(0, 0, 10 * ONE));
    assert_eq!(sphere.radius, ONE);
    assert!(Sphere::new(Vector3::new(0, 0, 10 * ONE), 0).is_none());
    assert!(Sphere::new(Vector3::new(COORD_MAX + 1, 0, 0), ONE).is_none());
}

#[test]
fn new_ray_is_made_if_well_formed() {
    let ray = Ray::new(Vector3::new(1, 2, 3), Vector3::new(600_000, 0, -800_000)).unwrap();
    assert_eq!(ray.origin, Vector3::new(1, 2, 3));
    assert_eq!(ray.direction, Vector3::new(600_000, 0, -800_000));
    assert!(Ray::new(Vector3::new(1, 2, 3), Vector3::new(600_000, 0, -700_000)).is_none());
    assert!(Ray::new(Vector3::new(-COORD_MAX - 1, 2, 3), Vector3::new(600_000, 0, -800_000)).is_none());
}
