//! The sphere, the ray, and the test that intersects them.

use crate::fixed::{
    ceil_sqrt, div_floor, floor_sqrt, isqrt, lemma_ceil_sqrt, lemma_floor_sqrt_exists, lemma_square_le,
    lemma_square_le_implies_le, ONE,
};
use crate::vector::{
    lemma_norm_sq_zero, lemma_product_bounded, lemma_squares_in_sum, lemma_unit_within_one, SpecVector3, Vector3,
    COORD_MAX,
};
use vstd::prelude::*;

verus! {

/// The largest distance along a ray at which a sphere of the scene can be
/// hit.
pub const DISTANCE_MAX: i64 = 1_300_000_000_000;

/// The mathematical value of a [`Sphere`].
pub struct SpecSphere {
    pub center: SpecVector3,
    pub radius: int,
}

/// The mathematical value of a [`Ray`].
pub struct SpecRay {
    pub origin: SpecVector3,
    pub direction: SpecVector3,
}

impl SpecSphere {
    /// The outward normal of the sphere at `point`: the direction from the
    /// center to the point. Meaningful unless `point` is the center.
    pub open spec fn normal_at(self, point: SpecVector3) -> SpecVector3 {
        point.minus(self.center).normalized()
    }
}

/// Which of the two candidate distances along a ray counts as the hit: none
/// if both lie behind the origin, the one in front if only one does, and the
/// nearer one otherwise.
pub open spec fn nearest_hit(t0: int, t1: int) -> Option<int> {
    if t0 < 0 {
        if t1 < 0 {
            None
        } else {
            Some(t1)
        }
    } else {
        if t1 < 0 {
            Some(t0)
        } else if t0 <= t1 {
            Some(t0)
        } else {
            Some(t1)
        }
    }
}

impl SpecRay {
    /// The vector from the origin of the ray to the center of the sphere.
    pub open spec fn to_center(self, sphere: SpecSphere) -> SpecVector3 {
        sphere.center.minus(self.origin)
    }

    /// The length of the projection of `to_center` onto the ray, as a
    /// product of two fixed-point numbers: `ONE * ONE` stands for one.
    pub open spec fn projection(self, sphere: SpecSphere) -> int {
        self.to_center(sphere).dot(self.direction)
    }

    /// The squared radius less the squared distance of the center from the
    /// line of the ray, which is the square of half the chord that the sphere
    /// cuts from the line. As a product of four fixed-point numbers.
    pub open spec fn half_chord_sq(self, sphere: SpecSphere) -> int {
        ONE * ONE * (sphere.radius * sphere.radius - self.to_center(sphere).norm_sq()) + self.projection(sphere)
            * self.projection(sphere)
    }

    /// The distance at which the line of the ray enters the sphere, rounded
    /// towards minus infinity.
    pub open spec fn entry_distance(self, sphere: SpecSphere) -> int {
        (self.projection(sphere) - ceil_sqrt(self.half_chord_sq(sphere))) / (ONE as int)
    }

    /// The distance at which the line of the ray leaves the sphere, rounded
    /// towards minus infinity.
    pub open spec fn exit_distance(self, sphere: SpecSphere) -> int {
        (self.projection(sphere) + floor_sqrt(self.half_chord_sq(sphere))) / (ONE as int)
    }

    /// The distance along the ray at which it hits the sphere, if it does.
    ///
    /// There is no hit when the center of the sphere projects behind the
    /// origin of the ray, nor when the line of the ray passes the center at
    /// more than the radius.
    pub open spec fn hit_distance(self, sphere: SpecSphere) -> Option<int> {
        if self.projection(sphere) < 0 {
            None
        } else if self.half_chord_sq(sphere) < 0 {
            None
        } else {
            nearest_hit(self.entry_distance(sphere), self.exit_distance(sphere))
        }
    }

    /// The point at distance `t` along the ray.
    pub open spec fn point_at(self, t: int) -> SpecVector3 {
        self.origin.plus(self.direction.scaled(t))
    }
}

/// A sphere, by its center and its radius.
#[derive(Clone, Copy, Debug)]
pub struct Sphere {
    pub center: Vector3,
    pub radius: i64,
}

impl View for Sphere {
    type V = SpecSphere;

    open spec fn view(&self) -> SpecSphere {
        SpecSphere { center: self.center@, radius: self.radius as int }
    }
}

impl Sphere {
    /// The radius is positive, and the sphere lies within the scene.
    pub open spec fn wf(&self) -> bool {
        &&& self.center@.within(COORD_MAX as int)
        &&& 0 < self.radius <= COORD_MAX
    }

    /// Whether the radius is positive and the sphere lies within the scene.
    pub fn is_well_formed(&self) -> (ok: bool)
        ensures
            ok == self.wf(),
    {
        self.center.is_within(COORD_MAX) && 0 < self.radius && self.radius <= COORD_MAX
    }

    /// The sphere with the given center and radius, if it is well formed.
    pub fn new(center: Vector3, radius: i64) -> (made: Option<Sphere>)
        ensures
            made is Some <==> (Sphere { center, radius }).wf(),
            made matches Some(sphere) ==> sphere == (Sphere { center, radius }),
    {
        let sphere = Sphere { center, radius };
        if sphere.is_well_formed() {
            Some(sphere)
        } else {
            None
        }
    }

    /// The outward normal of the sphere at `point`, which is a point other
    /// than the center.
    pub fn normal_at(&self, point: &Vector3) -> (normal: Vector3)
        requires
            self.wf(),
            point@.within(COORD_MAX + DISTANCE_MAX),
            point@ != self.center@,
        ensures
            normal@ == self@.normal_at(point@),
            normal@.is_unit(),
    {
        let from_center: Vector3 = point.minus(&self.center);
        proof {
            lemma_norm_sq_zero(from_center@);
        }
        from_center.normalize()
    }
}

/// A half-line, by its origin and its direction.
#[derive(Clone, Copy, Debug)]
pub struct Ray {
    pub origin: Vector3,
    pub direction: Vector3,
}

impl View for Ray {
    type V = SpecRay;

    open spec fn view(&self) -> SpecRay {
        SpecRay { origin: self.origin@, direction: self.direction@ }
    }
}

impl Ray {
    /// The origin lies within the scene, and the direction has length one.
    pub open spec fn wf(&self) -> bool {
        &&& self.origin@.within(COORD_MAX as int)
        &&& self.direction@.is_unit()
    }

    /// Whether the origin lies within the scene and the direction has length
    /// one.
    pub fn is_well_formed(&self) -> (ok: bool)
        ensures
            ok == self.wf(),
    {
        self.origin.is_within(COORD_MAX) && self.direction.is_unit()
    }

    /// The ray with the given origin and direction, if it is well formed.
    pub fn new(origin: Vector3, direction: Vector3) -> (made: Option<Ray>)
        ensures
            made is Some <==> (Ray { origin, direction }).wf(),
            made matches Some(ray) ==> ray == (Ray { origin, direction }),
    {
        let ray = Ray { origin, direction };
        if ray.is_well_formed() {
            Some(ray)
        } else {
            None
        }
    }

    /// The point at distance `t` along the ray.
    pub fn at(&self, t: i64) -> (point: Vector3)
        requires
            self.wf(),
            0 <= t <= DISTANCE_MAX,
        ensures
            point@ == self@.point_at(t as int),
            point@.within(COORD_MAX + DISTANCE_MAX),
    {
        proof {
            lemma_unit_within_one(self.direction@);
            lemma_scaled_component(self.direction.x as int, t as int);
            lemma_scaled_component(self.direction.y as int, t as int);
            lemma_scaled_component(self.direction.z as int, t as int);
        }
        let step: Vector3 = self.direction.scale(t);
        self.origin.plus(&step)
    }
}

/// Scaling a component of magnitude at most one by a distance yields at most
/// that distance.
proof fn lemma_scaled_component(d: int, t: int)
    requires
        -ONE <= d <= ONE,
        0 <= t,
    ensures
        -t <= (d * t) / (ONE as int) <= t,
{
    let one = ONE as int;
    assert(-(one * t) <= d * t <= one * t) by (nonlinear_arith)
        requires
            -one <= d <= one,
            0 <= t,
    ;
    vstd::arithmetic::div_mod::lemma_div_is_ordered(d * t, one * t, one);
    vstd::arithmetic::div_mod::lemma_div_is_ordered(-(one * t), d * t, one);
    vstd::arithmetic::div_mod::lemma_div_multiples_vanish(t, one);
    vstd::arithmetic::div_mod::lemma_div_multiples_vanish(-t, one);
    assert(one * (-t) == -(one * t)) by (nonlinear_arith);
}

/// The bounds within which the quantities of the intersection test stay for
/// a well-formed ray and sphere.
proof fn lemma_intersection_bounds(ray: SpecRay, sphere: SpecSphere)
    requires
        ray.origin.within(COORD_MAX as int),
        ray.direction.norm_sq() <= ONE * ONE,
        sphere.center.within(COORD_MAX as int),
        0 < sphere.radius <= COORD_MAX,
    ensures
        ray.to_center(sphere).within(2 * COORD_MAX),
        ray.direction.within(ONE as int),
        -600_000_000_000_000_000 <= ray.projection(sphere) <= 600_000_000_000_000_000,
        0 <= ray.to_center(sphere).norm_sq() <= 120_000_000_000_000_000_000_000,
        0 < sphere.radius * sphere.radius <= 10_000_000_000_000_000_000_000,
        ray.projection(sphere) * ray.projection(sphere) <= 360_000_000_000_000_000_000_000_000_000_000_000,
        -120_000_000_000_000_000_000_000_000_000_000_000 <= ray.half_chord_sq(sphere)
            <= 370_000_000_000_000_000_000_000_000_000_000_000,
{
    let l = ray.to_center(sphere);
    let d = ray.direction;
    let r = sphere.radius;
    lemma_unit_within_one(d);
    let b: int = 2 * COORD_MAX;
    let s: int = ONE as int;
    assert(-(b * s) <= l.x * d.x <= b * s) by (nonlinear_arith)
        requires
            -b <= l.x <= b,
            -s <= d.x <= s,
    ;
    assert(-(b * s) <= l.y * d.y <= b * s) by (nonlinear_arith)
        requires
            -b <= l.y <= b,
            -s <= d.y <= s,
    ;
    assert(-(b * s) <= l.z * d.z <= b * s) by (nonlinear_arith)
        requires
            -b <= l.z <= b,
            -s <= d.z <= s,
    ;
    lemma_product_bounded(l.x, l.x, b);
    lemma_product_bounded(l.y, l.y, b);
    lemma_product_bounded(l.z, l.z, b);
    lemma_squares_in_sum(l.x, l.y, l.z);
    assert(0 < r * r <= 10_000_000_000_000_000_000_000) by (nonlinear_arith)
        requires
            0 < r <= 100_000_000_000,
    ;
    let a = ray.projection(sphere);
    lemma_product_bounded(a, a, 600_000_000_000_000_000);
    let diff = r * r - l.norm_sq();
    assert(ONE * ONE * diff == 1_000_000_000_000 * diff) by (nonlinear_arith);
    assert(0 <= a * a) by (nonlinear_arith);
    assert(ray.half_chord_sq(sphere) == ONE * ONE * diff + a * a);
}

/// What the quantities of the intersection test say about the scene.
///
/// Take the point at distance `t` along the ray, before any rounding, and
/// its squared distance from the center of the sphere less the squared
/// radius, both as products of four fixed-point numbers. For a direction of
/// length exactly one this is the square of `t * ONE - projection` less
/// `half_chord_sq`, so that the point lies on the sphere where the two are
/// equal. A direction that falls short of length one adds a term in the
/// square of the distance.
pub proof fn lemma_distance_from_sphere(ray: SpecRay, sphere: SpecSphere, t: int)
    ensures
        ({
            let l = ray.to_center(sphere);
            let d = ray.direction;
            let from_center = SpecVector3 { x: t * d.x - ONE * l.x, y: t * d.y - ONE * l.y, z: t * d.z - ONE * l.z };
            let along = t * ONE - ray.projection(sphere);
            from_center.norm_sq() - ONE * ONE * (sphere.radius * sphere.radius) == along * along - ray.half_chord_sq(
                sphere,
            ) - t * t * (ONE * ONE - d.norm_sq())
        }),
{
    let l = ray.to_center(sphere);
    let d = ray.direction;
    let s = ONE as int;
    let r2 = sphere.radius * sphere.radius;
    let a = ray.projection(sphere);
    lemma_square_of_difference(t, d.x, s, l.x);
    lemma_square_of_difference(t, d.y, s, l.y);
    lemma_square_of_difference(t, d.z, s, l.z);
    let dd = d.x * d.x + d.y * d.y + d.z * d.z;
    let ll = l.x * l.x + l.y * l.y + l.z * l.z;
    assert(t * t * (d.x * d.x) + t * t * (d.y * d.y) + t * t * (d.z * d.z) == t * t * dd) by (nonlinear_arith)
        requires
            dd == d.x * d.x + d.y * d.y + d.z * d.z,
    ;
    assert(s * s * (l.x * l.x) + s * s * (l.y * l.y) + s * s * (l.z * l.z) == s * s * ll) by (nonlinear_arith)
        requires
            ll == l.x * l.x + l.y * l.y + l.z * l.z,
    ;
    assert((t * s) * (l.x * d.x) + (t * s) * (l.y * d.y) + (t * s) * (l.z * d.z) == (t * s) * a) by (nonlinear_arith)
        requires
            a == l.x * d.x + l.y * d.y + l.z * d.z,
    ;
    let ts = t * s;
    assert((ts - a) * (ts - a) == ts * ts - 2 * (ts * a) + a * a) by (nonlinear_arith);
    assert(ts * ts == t * t * (s * s)) by (nonlinear_arith)
        requires
            ts == t * s,
    ;
    assert(s * s * (r2 - ll) == s * s * r2 - s * s * ll) by (nonlinear_arith);
    assert(t * t * (s * s - dd) == t * t * (s * s) - t * t * dd) by (nonlinear_arith);
}

/// The square of `t * d - s * l`, multiplied out.
proof fn lemma_square_of_difference(t: int, d: int, s: int, l: int)
    ensures
        (t * d - s * l) * (t * d - s * l) == t * t * (d * d) - 2 * ((t * s) * (l * d)) + s * s * (l * l),
{
    let p = t * d;
    let q = s * l;
    assert((p - q) * (p - q) == p * p - 2 * (p * q) + q * q) by (nonlinear_arith);
    assert(p * p == t * t * (d * d)) by (nonlinear_arith)
        requires
            p == t * d,
    ;
    assert(q * q == s * s * (l * l)) by (nonlinear_arith)
        requires
            q == s * l,
    ;
    assert(p * q == (t * s) * (l * d)) by (nonlinear_arith)
        requires
            p == t * d,
            q == s * l,
    ;
}

/// The line of a ray enters a sphere no later than it leaves it.
pub proof fn lemma_entry_before_exit(ray: SpecRay, sphere: SpecSphere)
    requires
        ray.half_chord_sq(sphere) >= 0,
    ensures
        ray.entry_distance(sphere) <= ray.exit_distance(sphere),
{
    let a = ray.projection(sphere);
    let q = ray.half_chord_sq(sphere);
    lemma_ceil_sqrt(q);
    lemma_floor_sqrt_exists(q);
    vstd::arithmetic::div_mod::lemma_div_is_ordered(a - ceil_sqrt(q), a + floor_sqrt(q), ONE as int);
}

/// The distance at which the line of a ray enters a sphere is the lesser
/// root of the equation of the intersection, rounded down: at this distance
/// the line has not passed the point of entry, and one step further it has.
pub proof fn lemma_entry_distance_is_rounded_root(ray: SpecRay, sphere: SpecSphere)
    requires
        ray.half_chord_sq(sphere) >= 0,
    ensures
        ({
            let before = ray.projection(sphere) - ray.entry_distance(sphere) * ONE;
            let after = before - ONE;
            &&& 0 <= before
            &&& ray.half_chord_sq(sphere) <= before * before
            &&& after < 0 || after * after < ray.half_chord_sq(sphere)
        }),
{
    let one = ONE as int;
    let a = ray.projection(sphere);
    let q = ray.half_chord_sq(sphere);
    let c = ceil_sqrt(q);
    let t = ray.entry_distance(sphere);
    lemma_ceil_sqrt(q);
    vstd::arithmetic::div_mod::lemma_fundamental_div_mod(a - c, one);
    let before = a - t * one;
    let after = before - one;
    assert(one * t == t * one) by (nonlinear_arith);
    assert(c <= before < c + one);
    lemma_square_le(c, before);
    if 0 <= after {
        lemma_square_le(after, c - 1);
    }
}

/// The distance at which the line of a ray leaves a sphere is the greater
/// root of the equation of the intersection, rounded down: at this distance
/// the line has not passed the point of exit, and one step further it has.
pub proof fn lemma_exit_distance_is_rounded_root(ray: SpecRay, sphere: SpecSphere)
    requires
        ray.half_chord_sq(sphere) >= 0,
    ensures
        ({
            let before = ray.exit_distance(sphere) * ONE - ray.projection(sphere);
            let after = before + ONE;
            &&& before <= 0 || before * before <= ray.half_chord_sq(sphere)
            &&& 0 < after
            &&& ray.half_chord_sq(sphere) < after * after
        }),
{
    let one = ONE as int;
    let a = ray.projection(sphere);
    let q = ray.half_chord_sq(sphere);
    let r = floor_sqrt(q);
    let t = ray.exit_distance(sphere);
    lemma_floor_sqrt_exists(q);
    vstd::arithmetic::div_mod::lemma_fundamental_div_mod(a + r, one);
    let before = t * one - a;
    let after = before + one;
    assert(one * t == t * one) by (nonlinear_arith);
    assert(r - one < before <= r);
    if 0 < before {
        lemma_square_le(before, r);
    }
    lemma_square_le(r + 1, after);
}

/// A ray whose line meets the sphere, and along which the center of the
/// sphere does not lie behind the origin, hits the sphere: at the point of
/// entry if the origin is not inside the sphere, and at the point of exit if
/// it is.
pub proof fn lemma_hit_distance(ray: SpecRay, sphere: SpecSphere)
    requires
        ray.projection(sphere) >= 0,
        ray.half_chord_sq(sphere) >= 0,
    ensures
        ray.entry_distance(sphere) >= 0 <==> ray.to_center(sphere).norm_sq() >= sphere.radius * sphere.radius,
        ray.exit_distance(sphere) >= 0,
        ray.hit_distance(sphere) == if ray.entry_distance(sphere) >= 0 {
            Some(ray.entry_distance(sphere))
        } else {
            Some(ray.exit_distance(sphere))
        },
{
    let one = ONE as int;
    let a = ray.projection(sphere);
    let q = ray.half_chord_sq(sphere);
    let c = ceil_sqrt(q);
    let gap = sphere.radius * sphere.radius - ray.to_center(sphere).norm_sq();
    lemma_ceil_sqrt(q);
    lemma_floor_sqrt_exists(q);
    lemma_entry_before_exit(ray, sphere);
    vstd::arithmetic::div_mod::lemma_fundamental_div_mod(a - c, one);
    vstd::arithmetic::div_mod::lemma_fundamental_div_mod(a + floor_sqrt(q), one);
    assert(ray.exit_distance(sphere) >= 0) by (nonlinear_arith)
        requires
            a + floor_sqrt(q) == one * ray.exit_distance(sphere) + (a + floor_sqrt(q)) % one,
            (a + floor_sqrt(q)) % one < one,
            0 <= a + floor_sqrt(q),
            one == 1_000_000,
    ;
    assert(ray.entry_distance(sphere) >= 0 <==> c <= a) by (nonlinear_arith)
        requires
            a - c == one * ray.entry_distance(sphere) + (a - c) % one,
            0 <= (a - c) % one < one,
            one == 1_000_000,
    ;
    if c <= a {
        lemma_square_le(c, a);
    } else {
        lemma_square_le(a, c - 1);
    }
    assert(q <= a * a <==> gap <= 0) by (nonlinear_arith)
        requires
            q == ONE * ONE * gap + a * a,
    ;
}

/// The distance along `ray` at which it hits `sphere`: the nearest point of
/// the sphere in front of the origin. `None` if the ray misses the sphere,
/// which it does when the center of the sphere projects behind its origin or
/// its line passes the center at more than the radius.
pub fn ray_sphere_intersection(ray: &Ray, sphere: &Sphere) -> (hit: Option<i64>)
    requires
        ray.wf(),
        sphere.wf(),
    ensures
        match hit {
            Some(t) => ray@.hit_distance(sphere@) == Some(t as int),
            None => ray@.hit_distance(sphere@) == None::<int>,
        },
        hit is Some <==> ray@.projection(sphere@) >= 0 && ray@.half_chord_sq(sphere@) >= 0,
        ray@.projection(sphere@) < 0 ==> hit is None,
        hit matches Some(t) ==> 0 <= t <= DISTANCE_MAX,
{
    proof {
        lemma_intersection_bounds(ray@, sphere@);
        if ray@.projection(sphere@) >= 0 && ray@.half_chord_sq(sphere@) >= 0 {
            lemma_hit_distance(ray@, sphere@);
        }
    }
    let to_center: Vector3 = sphere.center.minus(&ray.origin);
    let tca: i128 = to_center.dot(&ray.direction);
    if tca < 0 {
        return None;
    }
    let d2: i128 = to_center.dot(&to_center);
    let r2: i128 = (sphere.radius as i128) * (sphere.radius as i128);
    let thc2: i128 = 1_000_000_000_000 * (r2 - d2) + tca * tca;
    assert(thc2 == ray@.half_chord_sq(sphere@)) by (nonlinear_arith)
        requires
            thc2 == 1_000_000_000_000 * (r2 - d2) + tca * tca,
            ray@.half_chord_sq(sphere@) == ONE * ONE * (r2 - d2) + tca * tca,
    ;
    if thc2 < 0 {
        return None;
    }
    let root_down: u128 = isqrt(thc2 as u128);
    proof {
        assert(700_000_000_000_000_000int * 700_000_000_000_000_000int
            == 490_000_000_000_000_000_000_000_000_000_000_000int) by (nonlinear_arith);
        lemma_square_le_implies_le(root_down as int, 700_000_000_000_000_000);
    }
    let root_up: u128 = if root_down * root_down == thc2 as u128 {
        root_down
    } else {
        root_down + 1
    };
    let t0: i128 = div_floor(tca - (root_up as i128), ONE as i128);
    let t1: i128 = div_floor(tca + (root_down as i128), ONE as i128);
    if t0 < 0 {
        if t1 < 0 {
            None
        } else {
            Some(t1 as i64)
        }
    } else {
        if t1 < 0 {
            Some(t0 as i64)
        } else if t0 <= t1 {
            Some(t0 as i64)
        } else {
            Some(t1 as i64)
        }
    }
}

} // verus!
