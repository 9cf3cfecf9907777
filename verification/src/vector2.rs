//! Plane vectors with fixed-point components.
//!
//! `IntVector` is the mathematical vector that contracts speak of: a pair of
//! unbounded integers. `Vector2` is the value that the simulation stores, a
//! pair of `i64` scalars, and its view is the `IntVector` with the same
//! components. Lengths are rounded toward zero, so no operation here ever
//! returns a vector longer than the one that was asked for.

use vstd::prelude::*;
use crate::fixed::{
    div_toward_zero, isqrt, lemma_sqrt_floor_exists, lemma_sqrt_floor_ordered,
    lemma_sqrt_floor_unique, magnitude, ratio, scale, sqrt_floor, ONE,
};

verus! {

/// A vector of the plane with integer components.
pub struct IntVector {
    pub x: int,
    pub y: int,
}

/// One component of a vector after the vector was given the length `len`:
/// `|c| * len / sqrt(d)` rounded down, with the sign of `c`, where `d` is the
/// squared length of the vector.
pub open spec fn resized(c: int, d: int, len: int) -> int {
    let m = sqrt_floor((c * c * len * len) / d);
    if c < 0 {
        -m
    } else {
        m
    }
}

impl IntVector {
    /// The vector without length.
    pub open spec fn zero() -> IntVector {
        IntVector { x: 0, y: 0 }
    }

    /// The sum of two vectors.
    pub open spec fn plus(self, other: IntVector) -> IntVector {
        IntVector { x: self.x + other.x, y: self.y + other.y }
    }

    /// The difference of two vectors.
    pub open spec fn minus(self, other: IntVector) -> IntVector {
        IntVector { x: self.x - other.x, y: self.y - other.y }
    }

    /// The square of the vector's length.
    pub open spec fn norm_squared(self) -> int {
        self.x * self.x + self.y * self.y
    }

    /// The vector's length, rounded down.
    pub open spec fn norm(self) -> int {
        sqrt_floor(self.norm_squared())
    }

    /// The vector multiplied by the scalar `k`.
    pub open spec fn scaled(self, k: int) -> IntVector {
        IntVector { x: scale(self.x, k), y: scale(self.y, k) }
    }

    /// The vector divided by the positive scalar `d`.
    pub open spec fn over(self, d: int) -> IntVector {
        IntVector { x: ratio(self.x, d), y: ratio(self.y, d) }
    }

    /// The vector divided by the positive whole number `n`.
    pub open spec fn shared(self, n: int) -> IntVector {
        IntVector { x: div_toward_zero(self.x, n), y: div_toward_zero(self.y, n) }
    }

    /// The vector of the same direction with length `len`; the zero vector
    /// has no direction and stays as it is.
    pub open spec fn with_length(self, len: int) -> IntVector {
        let d = self.norm_squared();
        if d == 0 {
            IntVector::zero()
        } else {
            IntVector { x: resized(self.x, d, len), y: resized(self.y, d, len) }
        }
    }

    /// The vector of the same direction with length one.
    pub open spec fn normalized(self) -> IntVector {
        self.with_length(ONE as int)
    }

    /// The vector itself where it is no longer than `max`, else the vector of
    /// the same direction with length `max`.
    pub open spec fn limited(self, max: int) -> IntVector {
        if self.norm_squared() <= max * max {
            self
        } else {
            self.with_length(max)
        }
    }

    /// The vector turned back by a right angle: its angle is the angle of
    /// this vector less 90 degrees.
    pub open spec fn quarter_turn(self) -> IntVector {
        IntVector { x: self.y, y: -self.x }
    }

    /// Both components lie between `-bound` and `bound`.
    pub open spec fn within(self, bound: int) -> bool {
        -bound <= self.x <= bound && -bound <= self.y <= bound
    }
}

/// A component is never longer than the vector.
pub proof fn lemma_component_bound(v: IntVector, m: int)
    requires
        0 <= m,
        v.norm_squared() <= m * m,
    ensures
        v.within(m),
{
    let x = v.x;
    let y = v.y;
    assert(-m <= x <= m && -m <= y <= m) by (nonlinear_arith)
        requires
            0 <= m,
            x * x + y * y <= m * m,
    ;
}

/// A vector with bounded components has a bounded squared length.
pub proof fn lemma_norm_squared_bound(v: IntVector, m: int)
    requires
        v.within(m),
    ensures
        0 <= v.norm_squared() <= 2 * (m * m),
        v.norm_squared() == 0 <==> v == IntVector::zero(),
{
    let x = v.x;
    let y = v.y;
    assert(0 <= x * x <= m * m && (x * x == 0 <==> x == 0)) by (nonlinear_arith)
        requires
            -m <= x <= m,
    ;
    assert(0 <= y * y <= m * m && (y * y == 0 <==> y == 0)) by (nonlinear_arith)
        requires
            -m <= y <= m,
    ;
}

/// The squared length is zero for the zero vector alone.
pub proof fn lemma_norm_squared_zero(v: IntVector)
    ensures
        0 <= v.norm_squared(),
        v.norm_squared() == 0 <==> v == IntVector::zero(),
{
    let m = magnitude(v.x) + magnitude(v.y);
    lemma_norm_squared_bound(v, m);
}

/// A resized component has the sign of the component it came from and is
/// at most `len` long.
pub proof fn lemma_resized_bound(c: int, d: int, len: int)
    requires
        0 < d,
        c * c <= d,
        0 <= len,
    ensures
        magnitude(resized(c, d, len)) <= len,
        c >= 0 ==> resized(c, d, len) >= 0,
        c <= 0 ==> resized(c, d, len) <= 0,
        resized(c, d, len) * resized(c, d, len) * d <= c * c * len * len,
{
    let n = c * c * len * len;
    assert(0 <= n && n <= d * (len * len) && n == (c * c) * (len * len)) by (nonlinear_arith)
        requires
            n == c * c * len * len,
            c * c <= d,
            0 <= len,
    ;
    let q = n / d;
    assert(0 <= q && q <= len * len && q * d <= n) by (nonlinear_arith)
        requires
            q == n / d,
            0 < d,
            0 <= n <= d * (len * len),
    ;
    lemma_sqrt_floor_exists(q);
    let m = sqrt_floor(q);
    assert(m <= len) by (nonlinear_arith)
        requires
            0 <= m,
            0 <= len,
            m * m <= q,
            q <= len * len,
    ;
    assert(m * m * d <= n) by (nonlinear_arith)
        requires
            m * m <= q,
            q * d <= n,
            0 < d,
    ;
    assert((-m) * (-m) * d == m * m * d) by (nonlinear_arith);
    if c == 0 {
        assert(n == 0) by (nonlinear_arith)
            requires
                n == c * c * len * len,
                c == 0,
        ;
        assert(q == 0);
        lemma_sqrt_floor_ordered(0, 0);
        lemma_sqrt_floor_unique(0, 0);
    }
}

/// A vector that was given the length `len` is at most `len` long.
pub proof fn lemma_with_length_norm(v: IntVector, len: int)
    requires
        0 <= len,
    ensures
        v.with_length(len).norm_squared() <= len * len,
        v.with_length(len).within(len),
{
    let d = v.norm_squared();
    lemma_norm_squared_zero(v);
    let r = v.with_length(len);
    if d == 0 {
        assert(r.norm_squared() == 0) by (nonlinear_arith)
            requires
                r.x == 0,
                r.y == 0,
                r.norm_squared() == r.x * r.x + r.y * r.y,
        ;
        assert(0 <= len * len) by (nonlinear_arith);
    } else {
        let x = v.x;
        let y = v.y;
        assert(x * x <= d && y * y <= d) by (nonlinear_arith)
            requires
                d == x * x + y * y,
        ;
        lemma_resized_bound(x, d, len);
        lemma_resized_bound(y, d, len);
        let a = r.x;
        let b = r.y;
        assert(a * a + b * b <= len * len) by (nonlinear_arith)
            requires
                0 < d,
                d == x * x + y * y,
                a * a * d <= x * x * len * len,
                b * b * d <= y * y * len * len,
        ;
    }
    lemma_component_bound(r, len);
}

/// Rounding down takes less than one from the length of a component: the
/// next greater length would be too long.
pub proof fn lemma_resized_close(c: int, d: int, len: int)
    requires
        0 < d,
        c * c <= d,
        0 <= len,
    ensures
        (magnitude(resized(c, d, len)) + 1) * (magnitude(resized(c, d, len)) + 1) * d > c * c
            * len * len,
{
    let n = c * c * len * len;
    assert(0 <= n) by (nonlinear_arith)
        requires
            n == c * c * len * len,
    ;
    let q = n / d;
    assert(0 <= q && (q + 1) * d > n) by (nonlinear_arith)
        requires
            q == n / d,
            0 < d,
            0 <= n,
    ;
    lemma_sqrt_floor_exists(q);
    let m = sqrt_floor(q);
    assert((m + 1) * (m + 1) * d > n) by (nonlinear_arith)
        requires
            (m + 1) * (m + 1) >= q + 1,
            (q + 1) * d > n,
            0 < d,
    ;
}

/// A vector that is given the length `len` falls short of it by less than
/// two.
pub proof fn lemma_with_length_accuracy(v: IntVector, len: int)
    requires
        v != IntVector::zero(),
        6 <= len,
    ensures
        (len - 2) * (len - 2) < v.with_length(len).norm_squared() <= len * len,
{
    let d = v.norm_squared();
    lemma_norm_squared_zero(v);
    lemma_with_length_norm(v, len);
    let x = v.x;
    let y = v.y;
    assert(x * x <= d && y * y <= d) by (nonlinear_arith)
        requires
            d == x * x + y * y,
    ;
    lemma_resized_close(x, d, len);
    lemma_resized_close(y, d, len);
    let r = v.with_length(len);
    let a = magnitude(r.x);
    let b = magnitude(r.y);
    assert(a * a == r.x * r.x && b * b == r.y * r.y) by (nonlinear_arith)
        requires
            a == magnitude(r.x),
            b == magnitude(r.y),
    ;
    let above_x = (a + 1) * (a + 1);
    let above_y = (b + 1) * (b + 1);
    let square = len * len;
    assert(x * x * len * len == (x * x) * square && y * y * len * len == (y * y) * square)
        by (nonlinear_arith)
        requires
            square == len * len,
    ;
    assert((above_x + above_y) * d > d * square) by (nonlinear_arith)
        requires
            d == x * x + y * y,
            above_x * d > (x * x) * square,
            above_y * d > (y * y) * square,
    ;
    assert(above_x + above_y > square) by (nonlinear_arith)
        requires
            0 < d,
            (above_x + above_y) * d > d * square,
    ;
    assert(a + b <= 2 * len - 3) by (nonlinear_arith)
        requires
            0 <= a,
            0 <= b,
            6 <= len,
            a * a + b * b <= len * len,
    ;
    assert((len - 2) * (len - 2) < a * a + b * b) by (nonlinear_arith)
        requires
            (a + 1) * (a + 1) + (b + 1) * (b + 1) > len * len,
            a + b <= 2 * len - 3,
    ;
}

/// A limited vector is at most `max` long.
pub proof fn lemma_limited_norm(v: IntVector, max: int)
    requires
        0 <= max,
    ensures
        v.limited(max).norm_squared() <= max * max,
        v.limited(max).within(max),
{
    lemma_with_length_norm(v, max);
    lemma_component_bound(v.limited(max), max);
}

/// A vector with two fixed-point components.
#[derive(Clone, Copy, Debug, PartialEq, Eq, Structural)]
pub struct Vector2 {
    pub x: i64,
    pub y: i64,
}

impl View for Vector2 {
    type V = IntVector;

    open spec fn view(&self) -> IntVector {
        IntVector { x: self.x as int, y: self.y as int }
    }
}

/// The absolute value of `c` as an unsigned number.
fn unsigned_magnitude(c: i64) -> (a: u128)
    ensures
        a == magnitude(c as int),
        a <= 0x8000_0000_0000_0000,
{
    if c < 0 {
        (-(c as i128)) as u128
    } else {
        c as u128
    }
}

/// One component of a vector that is given the length `len`.
fn resized_component(c: i64, d: u128, len: i64) -> (r: i64)
    requires
        0 < d,
        c * c <= d,
        0 <= len,
        d * len * len <= u128::MAX,
    ensures
        r == resized(c as int, d as int, len as int),
        magnitude(r as int) <= len,
{
    let a: u128 = unsigned_magnitude(c);
    let l: u128 = len as u128;
    proof {
        assert(a * a == c * c) by (nonlinear_arith)
            requires
                a == magnitude(c as int),
        ;
        assert(a * a * l <= d * l && d * l <= d * l * l && a * a * l * l <= d * l * l && (l == 0
            ==> d * l == 0)) by (nonlinear_arith)
            requires
                a * a <= d,
                0 <= l,
        ;
        assert(a * a * l * l == c * c * len * len) by (nonlinear_arith)
            requires
                a * a == c * c,
                l == len,
        ;
        lemma_resized_bound(c as int, d as int, len as int);
    }
    let q: u128 = a * a * l * l / d;
    let m: u64 = isqrt(q);
    if c < 0 {
        -(m as i64)
    } else {
        m as i64
    }
}

impl Vector2 {
    /// The vector with the components `x` and `y`.
    pub fn new(x: i64, y: i64) -> (r: Vector2)
        ensures
            r.x == x,
            r.y == y,
    {
        Vector2 { x, y }
    }

    /// The vector without length.
    pub fn zero() -> (r: Vector2)
        ensures
            r@ == IntVector::zero(),
    {
        Vector2 { x: 0, y: 0 }
    }

    /// The sum of two vectors, where it can be represented.
    pub fn plus(&self, other: &Vector2) -> (r: Vector2)
        requires
            i64::MIN <= self.x + other.x <= i64::MAX,
            i64::MIN <= self.y + other.y <= i64::MAX,
        ensures
            r@ == self@.plus(other@),
    {
        Vector2 { x: self.x + other.x, y: self.y + other.y }
    }

    /// The difference of two vectors, where it can be represented.
    pub fn minus(&self, other: &Vector2) -> (r: Vector2)
        requires
            i64::MIN <= self.x - other.x <= i64::MAX,
            i64::MIN <= self.y - other.y <= i64::MAX,
        ensures
            r@ == self@.minus(other@),
    {
        Vector2 { x: self.x - other.x, y: self.y - other.y }
    }

    /// The square of the vector's length.
    pub fn mag_squared(&self) -> (d: u128)
        ensures
            d == self@.norm_squared(),
    {
        let a: u128 = unsigned_magnitude(self.x);
        let b: u128 = unsigned_magnitude(self.y);
        proof {
            let x = self.x as int;
            let y = self.y as int;
            assert(a * a == x * x && a * a <= 0x4000_0000_0000_0000_0000_0000_0000_0000)
                by (nonlinear_arith)
                requires
                    a == magnitude(x),
                    a <= 0x8000_0000_0000_0000,
            ;
            assert(b * b == y * y && b * b <= 0x4000_0000_0000_0000_0000_0000_0000_0000)
                by (nonlinear_arith)
                requires
                    b == magnitude(y),
                    b <= 0x8000_0000_0000_0000,
            ;
        }
        a * a + b * b
    }

    /// The vector's length, rounded down.
    pub fn mag(&self) -> (m: u64)
        ensures
            m == self@.norm(),
    {
        isqrt(self.mag_squared())
    }

    /// The distance between two points, rounded down, where their
    /// difference can be represented.
    pub fn distance_to(&self, other: &Vector2) -> (m: u64)
        requires
            i64::MIN <= self.x - other.x <= i64::MAX,
            i64::MIN <= self.y - other.y <= i64::MAX,
        ensures
            m == self@.minus(other@).norm(),
    {
        self.minus(other).mag()
    }

    /// The vector multiplied by the scalar `k`, where the product can be
    /// represented.
    pub fn scaled(&self, k: i64) -> (r: Vector2)
        requires
            i64::MIN <= scale(self.x as int, k as int) <= i64::MAX,
            i64::MIN <= scale(self.y as int, k as int) <= i64::MAX,
        ensures
            r@ == self@.scaled(k as int),
    {
        Vector2 { x: scale_scalar(self.x, k), y: scale_scalar(self.y, k) }
    }

    /// The vector divided by the positive scalar `d`, where the quotient can
    /// be represented.
    pub fn over(&self, d: i64) -> (r: Vector2)
        requires
            0 < d,
            i64::MIN <= ratio(self.x as int, d as int) <= i64::MAX,
            i64::MIN <= ratio(self.y as int, d as int) <= i64::MAX,
        ensures
            r@ == self@.over(d as int),
    {
        Vector2 { x: divide_scalar(self.x, d), y: divide_scalar(self.y, d) }
    }

    /// The vector of the same direction with length `len`. The zero vector
    /// is returned as it is.
    pub fn with_length(&self, len: i64) -> (r: Vector2)
        requires
            0 <= len,
            self@.norm_squared() * len * len <= u128::MAX,
        ensures
            r@ == self@.with_length(len as int),
            r@.norm_squared() <= len * len,
    {
        let d: u128 = self.mag_squared();
        proof {
            lemma_with_length_norm(self@, len as int);
        }
        if d == 0 {
            return Vector2 { x: 0, y: 0 };
        }
        proof {
            let x = self.x as int;
            let y = self.y as int;
            assert(x * x <= d && y * y <= d) by (nonlinear_arith)
                requires
                    d == x * x + y * y,
            ;
        }
        Vector2 { x: resized_component(self.x, d, len), y: resized_component(self.y, d, len) }
    }

    /// The vector of the same direction with length one. The zero vector is
    /// returned as it is.
    pub fn normalized(&self) -> (r: Vector2)
        requires
            self@.norm_squared() * ONE * ONE <= u128::MAX,
        ensures
            r@ == self@.normalized(),
            r@.norm_squared() <= ONE * ONE,
    {
        self.with_length(ONE)
    }

    /// The vector itself where it is no longer than `max`, else the vector
    /// of the same direction with length `max`.
    pub fn limited(&self, max: i64) -> (r: Vector2)
        requires
            0 <= max,
            self@.norm_squared() * max * max <= u128::MAX,
        ensures
            r@ == self@.limited(max as int),
            r@.norm_squared() <= max * max,
    {
        let d: u128 = self.mag_squared();
        let m: u128 = max as u128;
        assert(m * m <= 0x4000_0000_0000_0000_0000_0000_0000_0000) by (nonlinear_arith)
            requires
                0 <= m <= 0x7fff_ffff_ffff_ffff,
        ;
        if d <= m * m {
            *self
        } else {
            self.with_length(max)
        }
    }

    /// The vector turned back by a right angle, where it can be
    /// represented.
    pub fn quarter_turn(&self) -> (r: Vector2)
        requires
            self.x > i64::MIN,
        ensures
            r@ == self@.quarter_turn(),
    {
        Vector2 { x: self.y, y: -self.x }
    }
}

/// The product of two scalars, where it can be represented.
pub fn scale_scalar(a: i64, k: i64) -> (r: i64)
    requires
        i64::MIN <= scale(a as int, k as int) <= i64::MAX,
    ensures
        r == scale(a as int, k as int),
{
    assert(-0x4000_0000_0000_0000_0000_0000_0000_0000 <= a * k
        <= 0x4000_0000_0000_0000_0000_0000_0000_0000) by (nonlinear_arith)
        requires
            -0x8000_0000_0000_0000 <= a <= 0x7fff_ffff_ffff_ffff,
            -0x8000_0000_0000_0000 <= k <= 0x7fff_ffff_ffff_ffff,
    ;
    let p: i128 = (a as i128) * (k as i128);
    let q: i128 = p / (ONE as i128);
    q as i64
}

/// The quotient of two scalars, where it can be represented.
pub fn divide_scalar(a: i64, d: i64) -> (r: i64)
    requires
        0 < d,
        i64::MIN <= ratio(a as int, d as int) <= i64::MAX,
    ensures
        r == ratio(a as int, d as int),
{
    let p: i128 = (a as i128) * (ONE as i128);
    let q: i128 = p / (d as i128);
    q as i64
}

} // verus!
