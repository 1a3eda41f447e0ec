use raytracer::fixed::ONE;
use raytracer::vector::{Vector3, COORD_MAX, EXTENT_MAX};

fn norm_sq(v: &Vector3) -> i128 {
    v.dot(v)
}

#[test]
fn new_sets_the_components() {
    let v = Vector3::new(1, -2, 3);
    assert_eq!(v, Vector3 { x: 1, y: -2, z: 3 });
}

#[test]
fn plus_adds_componentwise() {
    let a = Vector3::new(1, 2, 3);
    let b = Vector3::new(10, -20, 30);
    assert_eq!(a.plus(&b), Vector3::new(11, -18, 33));
}

#[test]
fn minus_subtracts_componentwise() {
    let a = Vector3::new(1, 2, 3);
    let b = Vector3::new(10, -20, 30);
    assert_eq!(a.minus(&b), Vector3::new(-9, 22, -27));
    assert_eq!(b.minus(&a), Vector3::new(9, -22, 27));
}

#[test]
fn dot_multiplies_and_sums() {
    let a = Vector3::new(1, 2, 3);
    let b = Vector3::new(4, -5, 6);
    assert_eq!(a.dot(&b), 12);
    assert_eq!(a.dot(&a), 14);
}

#[test]
fn dot_at_the_limit_of_its_range() {
    let a = Vector3::new(EXTENT_MAX, -EXTENT_MAX, EXTENT_MAX);
    assert_eq!(a.dot(&a), 300_000_000_000_000_000_000_000_000);
    let b = Vector3::new(-EXTENT_MAX, -EXTENT_MAX, -EXTENT_MAX);
    assert_eq!(a.dot(&b), -100_000_000_000_000_000_000_000_000);
}

#[test]
fn scale_multiplies_by_a_fixed_point_number() {
    let v = Vector3::new(ONE, -ONE, 0);
    assert_eq!(v.scale(1_234_567), Vector3::new(1_234_567, -1_234_567, 0));
    assert_eq!(v.scale(ONE), v);
}

#[test]
fn scale_rounds_towards_minus_infinity() {
    let v = Vector3::new(-414_702, 414_702, 809_965);
    assert_eq!(v.scale(3), Vector3::new(-2, 1, 2));
    let w = Vector3::new(1, -1, ONE);
    assert_eq!(w.scale(ONE), Vector3::new(1, -1, ONE));
    assert_eq!(w.scale(1), Vector3::new(0, -1, 1));
}

#[test]
fn normalize_of_a_pythagorean_triple() {
    let v = Vector3::new(3 * ONE, 4 * ONE, 0);
    assert_eq!(v.normalize(), Vector3::new(600_000, 800_000, 0));
}

#[test]
fn normalize_rounds_towards_zero() {
    assert_eq!(Vector3::new(1, 1, 0).normalize(), Vector3::new(707_106, 707_106, 0));
    assert_eq!(Vector3::new(-1, -1, 0).normalize(), Vector3::new(-707_106, -707_106, 0));
    assert_eq!(Vector3::new(1, 2, -2).normalize(), Vector3::new(333_333, 666_666, -666_666));
}

#[test]
fn normalize_of_an_axis_is_exact() {
    assert_eq!(Vector3::new(-7, 0, 0).normalize(), Vector3::new(-ONE, 0, 0));
    assert_eq!(Vector3::new(0, 0, COORD_MAX).normalize(), Vector3::new(0, 0, ONE));
}

#[test]
fn normalize_at_the_limit_of_its_range() {
    let v = Vector3::new(EXTENT_MAX, -EXTENT_MAX, EXTENT_MAX);
    assert_eq!(v.normalize(), Vector3::new(577_350, -577_350, 577_350));
}

#[test]
fn normalized_vectors_have_length_one() {
    let one_sq = (ONE as i128) * (ONE as i128);
    let low = ((ONE - 4) as i128) * ((ONE - 4) as i128);
    let mut k: i64 = 1;
    while k < 200 {
        let v = Vector3::new(k * 37 - 1000, 5000 - k * 91, k * k - 77);
        let u = v.normalize();
        let n = norm_sq(&u);
        assert!(n <= one_sq);
        assert!(n > low);
        let up = Vector3::new(u.x.abs() + 1, u.y.abs() + 1, u.z.abs() + 1);
        assert!(norm_sq(&up) > one_sq);
        k += 1;
    }
}

#[test]
fn is_within_tests_every_component() {
    let v = Vector3::new(5, -7, 3);
    assert!(v.is_within(7));
    assert!(!v.is_within(6));
    assert!(!v.is_within(-1));
    assert!(Vector3::new(0, 0, 0).is_within(0));
    assert!(!Vector3::new(0, 0, 1).is_within(0));
    assert!(Vector3::new(COORD_MAX, -COORD_MAX, 0).is_within(COORD_MAX));
    assert!(!Vector3::new(COORD_MAX + 1, 0, 0).is_within(COORD_MAX));
}

#[test]
fn is_unit_accepts_rounded_unit_vectors() {
    assert!(Vector3::new(0, 0, ONE).is_unit());
    assert!(Vector3::new(-ONE, 0, 0).is_unit());
    assert!(Vector3::new(600_000, 800_000, 0).is_unit());
    assert!(Vector3::new(707_106, 707_106, 0).is_unit());
    assert!(Vector3::new(-414_702, 414_702, 809_965).is_unit());
    assert!(Vector3::new(577_350, -577_350, 577_350).is_unit());
    assert!(Vector3::new(0, 0, ONE - 1).is_unit());
}

#[test]
fn is_unit_rejects_other_vectors() {
    assert!(!Vector3::new(0, 0, 0).is_unit());
    assert!(!Vector3::new(0, 0, ONE + 1).is_unit());
    assert!(!Vector3::new(1, 0, ONE).is_unit());
    assert!(!Vector3::new(0, 0, ONE - 2).is_unit());
    assert!(!Vector3::new(707_105, 707_105, 0).is_unit());
    assert!(!Vector3::new(707_107, 707_107, 0).is_unit());
    assert!(!Vector3::new(i64::MAX, i64::MIN, 0).is_unit());
    assert!(!Vector3::new(3 * ONE, 4 * ONE, 0).is_unit());
}
