//! Three-dimensional vectors with fixed-point components.

use crate::fixed::{div_floor, floor_sqrt, isqrt, lemma_floor_sqrt_exists, lemma_square_le_implies_le, magnitude, ONE};
use vstd::prelude::*;

verus! {

/// The largest magnitude of a coordinate of a point of the scene: a hundred
/// thousand world units.
pub const COORD_MAX: i64 = 100_000_000_000;

/// The largest magnitude of a component that the vector products accept: ten
/// million world units.
pub const EXTENT_MAX: i64 = 10_000_000_000_000;

/// A vector of three integers: the mathematical value of a [`Vector3`].
pub struct SpecVector3 {
    pub x: int,
    pub y: int,
    pub z: int,
}

/// The component of a normalized vector that belongs to the component `c` of a
/// vector whose squared length is `n`: the real number `c / sqrt(n)` in
/// fixed-point representation, rounded towards zero.
pub open spec fn unit_component(c: int, n: int) -> int {
    let m = floor_sqrt((c * c * (ONE * ONE)) / n);
    if c < 0 {
        -m
    } else {
        m
    }
}

impl SpecVector3 {
    pub open spec fn zero() -> SpecVector3 {
        SpecVector3 { x: 0, y: 0, z: 0 }
    }

    pub open spec fn plus(self, other: SpecVector3) -> SpecVector3 {
        SpecVector3 { x: self.x + other.x, y: self.y + other.y, z: self.z + other.z }
    }

    pub open spec fn minus(self, other: SpecVector3) -> SpecVector3 {
        SpecVector3 { x: self.x - other.x, y: self.y - other.y, z: self.z - other.z }
    }

    pub open spec fn dot(self, other: SpecVector3) -> int {
        self.x * other.x + self.y * other.y + self.z * other.z
    }

    /// The squared length.
    pub open spec fn norm_sq(self) -> int {
        self.dot(self)
    }

    /// Every component has a magnitude of at most `bound`.
    pub open spec fn within(self, bound: int) -> bool {
        &&& -bound <= self.x <= bound
        &&& -bound <= self.y <= bound
        &&& -bound <= self.z <= bound
    }

    /// The product with the fixed-point scalar `t`, each component rounded
    /// towards minus infinity.
    pub open spec fn scaled(self, t: int) -> SpecVector3 {
        SpecVector3 { x: (self.x * t) / (ONE as int), y: (self.y * t) / (ONE as int), z: (self.z * t) / (ONE as int) }
    }

    /// The vector of length one in the direction of `self`, each component
    /// rounded towards zero. Meaningful unless `self` is the zero vector.
    pub open spec fn normalized(self) -> SpecVector3 {
        let n = self.norm_sq();
        SpecVector3 { x: unit_component(self.x, n), y: unit_component(self.y, n), z: unit_component(self.z, n) }
    }

    /// The vector has length one, as far as the representation can tell: it
    /// is no longer than one, and it becomes longer than one when every
    /// component moves one step away from zero. These are exactly the vectors
    /// that arise from a real vector of length one by rounding each component
    /// towards zero.
    pub open spec fn is_unit(self) -> bool {
        &&& self.norm_sq() <= ONE * ONE
        &&& ONE * ONE < (magnitude(self.x) + 1) * (magnitude(self.x) + 1) + (magnitude(self.y) + 1) * (
        magnitude(self.y) + 1) + (magnitude(self.z) + 1) * (magnitude(self.z) + 1)
    }
}

/// A vector with fixed-point components.
#[derive(Clone, Copy, PartialEq, Eq, Debug, Structural)]
pub struct Vector3 {
    pub x: i64,
    pub y: i64,
    pub z: i64,
}

impl View for Vector3 {
    type V = SpecVector3;

    open spec fn view(&self) -> SpecVector3 {
        SpecVector3 { x: self.x as int, y: self.y as int, z: self.z as int }
    }
}

/// The absolute value.
fn abs_i128(v: i128) -> (a: i128)
    requires
        i128::MIN < v,
    ensures
        a == magnitude(v as int),
{
    if v < 0 {
        -v
    } else {
        v
    }
}

/// A component of a normalized vector, from the component `c` and the squared
/// length `n` of the vector.
fn unit_component_of(c: i64, n: u128) -> (u: i64)
    requires
        -EXTENT_MAX <= c <= EXTENT_MAX,
        0 < n,
        c * c <= n,
    ensures
        u == unit_component(c as int, n as int),
        -ONE <= u <= ONE,
{
    let a: u128 = if c < 0 {
        (-c) as u128
    } else {
        c as u128
    };
    assert(a * a == c * c) by (nonlinear_arith)
        requires
            a == c || a == -c,
    ;
    assert(a * a <= 100_000_000_000_000_000_000_000_000) by (nonlinear_arith)
        requires
            0 <= a <= 10_000_000_000_000,
    ;
    let s: u128 = a * a * 1_000_000_000_000;
    assert(s == c * c * (ONE * ONE)) by (nonlinear_arith)
        requires
            s == a * a * 1_000_000_000_000,
            a * a == c * c,
            ONE == 1_000_000,
    ;
    let k: u128 = s / n;
    let m: u128 = isqrt(k);
    proof {
        let one_sq: int = ONE * ONE;
        assert(s <= n * one_sq) by (nonlinear_arith)
            requires
                s == c * c * one_sq,
                c * c <= n,
                0 <= one_sq,
        ;
        vstd::arithmetic::div_mod::lemma_fundamental_div_mod(s as int, n as int);
        assert(k <= one_sq) by (nonlinear_arith)
            requires
                s == n * k + s % n,
                0 <= s % n,
                s <= n * one_sq,
                0 < n,
        ;
        lemma_square_le_implies_le(m as int, ONE as int);
    }
    if c < 0 {
        -(m as i64)
    } else {
        m as i64
    }
}

impl Vector3 {
    pub fn new(x: i64, y: i64, z: i64) -> (v: Vector3)
        ensures
            v == (Vector3 { x, y, z }),
    {
        Vector3 { x, y, z }
    }

    /// Whether every component has a magnitude of at most `bound`.
    pub fn is_within(&self, bound: i64) -> (ok: bool)
        ensures
            ok == self@.within(bound as int),
    {
        if bound < 0 {
            return false;
        }
        -bound <= self.x && self.x <= bound && -bound <= self.y && self.y <= bound && -bound <= self.z && self.z
            <= bound
    }

    /// Whether the vector has length one.
    pub fn is_unit(&self) -> (ok: bool)
        ensures
            ok == self@.is_unit(),
    {
        if !self.is_within(ONE) {
            proof {
                if self@.is_unit() {
                    lemma_unit_within_one(self@);
                }
            }
            return false;
        }
        let (x, y, z): (i128, i128, i128) = (self.x as i128, self.y as i128, self.z as i128);
        let (ax, ay, az): (i128, i128, i128) = (abs_i128(x) + 1, abs_i128(y) + 1, abs_i128(z) + 1);
        proof {
            lemma_product_bounded(x as int, x as int, ONE as int);
            lemma_product_bounded(y as int, y as int, ONE as int);
            lemma_product_bounded(z as int, z as int, ONE as int);
            lemma_product_bounded(ax as int, ax as int, ONE + 1);
            lemma_product_bounded(ay as int, ay as int, ONE + 1);
            lemma_product_bounded(az as int, az as int, ONE + 1);
        }
        let one_sq: i128 = (ONE as i128) * (ONE as i128);
        x * x + y * y + z * z <= one_sq && one_sq < ax * ax + ay * ay + az * az
    }

    /// The sum of two vectors.
    pub fn plus(&self, other: &Vector3) -> (sum: Vector3)
        requires
            self@.plus(other@).within(i64::MAX as int),
        ensures
            sum@ == self@.plus(other@),
    {
        Vector3 { x: self.x + other.x, y: self.y + other.y, z: self.z + other.z }
    }

    /// The difference of two vectors.
    pub fn minus(&self, other: &Vector3) -> (difference: Vector3)
        requires
            self@.minus(other@).within(i64::MAX as int),
        ensures
            difference@ == self@.minus(other@),
    {
        Vector3 { x: self.x - other.x, y: self.y - other.y, z: self.z - other.z }
    }

    /// The dot product. Its unit is the square of the unit of the
    /// components.
    pub fn dot(&self, other: &Vector3) -> (product: i128)
        requires
            self@.within(EXTENT_MAX as int),
            other@.within(EXTENT_MAX as int),
        ensures
            product == self@.dot(other@),
    {
        proof {
            lemma_product_bounded(self.x as int, other.x as int, EXTENT_MAX as int);
            lemma_product_bounded(self.y as int, other.y as int, EXTENT_MAX as int);
            lemma_product_bounded(self.z as int, other.z as int, EXTENT_MAX as int);
        }
        (self.x as i128) * (other.x as i128) + (self.y as i128) * (other.y as i128) + (self.z as i128) * (
        other.z as i128)
    }

    /// The product with the fixed-point scalar `t`.
    pub fn scale(&self, t: i64) -> (product: Vector3)
        requires
            self@.scaled(t as int).within(i64::MAX as int),
        ensures
            product@ == self@.scaled(t as int),
    {
        proof {
            lemma_product_bounded(self.x as int, t as int, 0x8000_0000_0000_0000);
            lemma_product_bounded(self.y as int, t as int, 0x8000_0000_0000_0000);
            lemma_product_bounded(self.z as int, t as int, 0x8000_0000_0000_0000);
        }
        let x: i128 = div_floor((self.x as i128) * (t as i128), ONE as i128);
        let y: i128 = div_floor((self.y as i128) * (t as i128), ONE as i128);
        let z: i128 = div_floor((self.z as i128) * (t as i128), ONE as i128);
        Vector3 { x: x as i64, y: y as i64, z: z as i64 }
    }

    /// The vector of length one in the direction of `self`.
    pub fn normalize(&self) -> (unit: Vector3)
        requires
            self@.within(EXTENT_MAX as int),
            self@.norm_sq() != 0,
        ensures
            unit@ == self@.normalized(),
            unit@.is_unit(),
    {
        let d: i128 = self.dot(self);
        proof {
            lemma_squares_in_sum(self.x as int, self.y as int, self.z as int);
            lemma_normalized_is_unit(self@);
        }
        let n: u128 = d as u128;
        Vector3 { x: unit_component_of(self.x, n), y: unit_component_of(self.y, n), z: unit_component_of(self.z, n) }
    }
}

/// The product of two numbers of bounded magnitude is bounded by the square
/// of the bound.
pub proof fn lemma_product_bounded(a: int, b: int, bound: int)
    requires
        -bound <= a <= bound,
        -bound <= b <= bound,
    ensures
        -(bound * bound) <= a * b <= bound * bound,
{
    assert(-(bound * bound) <= a * b <= bound * bound) by (nonlinear_arith)
        requires
            -bound <= a <= bound,
            -bound <= b <= bound,
    ;
}

/// Only the zero vector has length zero.
pub proof fn lemma_norm_sq_zero(v: SpecVector3)
    ensures
        v.norm_sq() == 0 <==> v == SpecVector3::zero(),
{
    lemma_squares_in_sum(v.x, v.y, v.z);
    assert(v.x * v.x == 0 ==> v.x == 0) by (nonlinear_arith);
    assert(v.y * v.y == 0 ==> v.y == 0) by (nonlinear_arith);
    assert(v.z * v.z == 0 ==> v.z == 0) by (nonlinear_arith);
}

/// Each square is at most the sum of the three squares, and none is
/// negative.
pub proof fn lemma_squares_in_sum(a: int, b: int, c: int)
    ensures
        0 <= a * a <= a * a + b * b + c * c,
        0 <= b * b <= a * a + b * b + c * c,
        0 <= c * c <= a * a + b * b + c * c,
{
    assert(0 <= a * a && 0 <= b * b && 0 <= c * c) by (nonlinear_arith);
}

/// The two bounds that pin down a component of a normalized vector: its
/// square times the squared length `n` does not exceed the square of the
/// scaled component `c`, and one step further from zero it does.
pub proof fn lemma_unit_component(c: int, n: int)
    requires
        0 < n,
    ensures
        unit_component(c, n) * unit_component(c, n) * n <= c * c * (ONE * ONE),
        c * c * (ONE * ONE) < (magnitude(unit_component(c, n)) + 1) * (magnitude(unit_component(c, n)) + 1) * n,
        c >= 0 ==> unit_component(c, n) >= 0,
        c <= 0 ==> unit_component(c, n) <= 0,
{
    let s = c * c * (ONE * ONE);
    assert(0 <= s) by (nonlinear_arith)
        requires
            s == c * c * (ONE * ONE),
    ;
    let k = s / n;
    vstd::arithmetic::div_mod::lemma_fundamental_div_mod(s, n);
    vstd::arithmetic::div_mod::lemma_div_pos_is_pos(s, n);
    lemma_floor_sqrt_exists(k);
    let m = floor_sqrt(k);
    let u = unit_component(c, n);
    assert(u * u == m * m) by (nonlinear_arith)
        requires
            u == m || u == -m,
    ;
    assert(magnitude(u) == m);
    if c == 0 {
        assert(s == 0) by (nonlinear_arith)
            requires
                s == c * c * (ONE * ONE),
                c == 0,
        ;
        assert(m == 0) by (nonlinear_arith)
            requires
                0 <= m,
                m * m <= 0,
        ;
    }
    assert(m * m * n <= k * n) by (nonlinear_arith)
        requires
            m * m <= k,
            0 < n,
    ;
    assert(k * n <= s) by (nonlinear_arith)
        requires
            s == n * k + s % n,
            0 <= s % n,
    ;
    assert((k + 1) * n > s) by (nonlinear_arith)
        requires
            s == n * k + s % n,
            s % n < n,
    ;
    assert((m + 1) * (m + 1) * n >= (k + 1) * n) by (nonlinear_arith)
        requires
            k + 1 <= (m + 1) * (m + 1),
            0 < n,
    ;
}

/// Normalizing a vector other than zero yields a vector of length one.
pub proof fn lemma_normalized_is_unit(v: SpecVector3)
    requires
        v.norm_sq() != 0,
    ensures
        v.normalized().is_unit(),
{
    let n = v.norm_sq();
    assert(n > 0) by (nonlinear_arith)
        requires
            n == v.x * v.x + v.y * v.y + v.z * v.z,
            n != 0,
    ;
    let u = v.normalized();
    lemma_unit_component(v.x, n);
    lemma_unit_component(v.y, n);
    lemma_unit_component(v.z, n);
    let s = ONE * ONE;
    assert(v.x * v.x * s + v.y * v.y * s + v.z * v.z * s == n * s) by (nonlinear_arith)
        requires
            n == v.x * v.x + v.y * v.y + v.z * v.z,
    ;
    let lower = u.x * u.x + u.y * u.y + u.z * u.z;
    assert(lower * n == u.x * u.x * n + u.y * u.y * n + u.z * u.z * n) by (nonlinear_arith)
        requires
            lower == u.x * u.x + u.y * u.y + u.z * u.z,
    ;
    assert(lower <= s) by (nonlinear_arith)
        requires
            lower * n <= n * s,
            0 < n,
    ;
    let (ax, ay, az) = (magnitude(u.x) + 1, magnitude(u.y) + 1, magnitude(u.z) + 1);
    let upper = ax * ax + ay * ay + az * az;
    assert(upper * n == ax * ax * n + ay * ay * n + az * az * n) by (nonlinear_arith)
        requires
            upper == ax * ax + ay * ay + az * az,
    ;
    assert(s < upper) by (nonlinear_arith)
        requires
            n * s < upper * n,
            0 < n,
    ;
}

/// A vector of length one, as [`SpecVector3::is_unit`] has it, is at most as
/// long as one and falls short of it by less than four steps of the
/// representation.
pub proof fn lemma_unit_length_tolerance(v: SpecVector3)
    requires
        v.is_unit(),
    ensures
        (ONE - 4) * (ONE - 4) < v.norm_sq() <= ONE * ONE,
{
    lemma_unit_within_one(v);
    let (a, b, c) = (magnitude(v.x), magnitude(v.y), magnitude(v.z));
    assert(a * a == v.x * v.x && b * b == v.y * v.y && c * c == v.z * v.z) by (nonlinear_arith)
        requires
            a == v.x || a == -v.x,
            b == v.y || b == -v.y,
            c == v.z || c == -v.z,
    ;
    assert((a + 1) * (a + 1) + (b + 1) * (b + 1) + (c + 1) * (c + 1) == a * a + b * b + c * c + 2 * (a + b + c) + 3)
        by (nonlinear_arith);
}

/// No component of a vector of length one exceeds one in magnitude.
pub proof fn lemma_unit_within_one(v: SpecVector3)
    requires
        v.norm_sq() <= ONE * ONE,
    ensures
        v.within(ONE as int),
{
    lemma_component_bounded(v.x, v.y, v.z);
    lemma_component_bounded(v.y, v.z, v.x);
    lemma_component_bounded(v.z, v.x, v.y);
}

proof fn lemma_component_bounded(a: int, b: int, c: int)
    requires
        a * a + b * b + c * c <= ONE * ONE,
    ensures
        -ONE <= a <= ONE,
{
    assert(0 <= b * b && 0 <= c * c) by (nonlinear_arith);
    assert(magnitude(a) * magnitude(a) == a * a) by (nonlinear_arith)
        requires
            magnitude(a) == a || magnitude(a) == -a,
    ;
    lemma_square_le_implies_le(magnitude(a), ONE as int);
}

} // verus!
