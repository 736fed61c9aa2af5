//! Three-component vectors over fixed-point scalars, used for points, directions and colors.
use vstd::prelude::*;
use crate::fixed::{
    is_root, isqrt, isqrt_spec, lemma_abs_le_isqrt, lemma_isqrt_spec, lemma_mul_bound,
    lemma_tdiv_bounds, lemma_tdiv_neg, tdiv, tdiv_exec, fx_mul, COORD, ONE,
};

verus! {

#[derive(Clone, Copy, Debug, PartialEq, Eq, Structural)]
pub struct Vec3 {
    pub x: i64,
    pub y: i64,
    pub z: i64,
}

/// A point in space; the same type as a free vector.
pub type Point3 = Vec3;

/// The fixed-point quotient `a / k`, rounded toward zero.
pub open spec fn fx_div(a: int, k: int) -> int {
    if k > 0 {
        tdiv(a * ONE, k)
    } else {
        -tdiv(a * ONE, -k)
    }
}

impl Vec3 {
    /// Every coordinate has magnitude at most `COORD`.
    pub open spec fn bounded(self) -> bool {
        &&& -COORD <= self.x <= COORD
        &&& -COORD <= self.y <= COORD
        &&& -COORD <= self.z <= COORD
    }

    /// Every coordinate has magnitude at most `m`.
    pub open spec fn within(self, m: int) -> bool {
        &&& -m <= self.x <= m
        &&& -m <= self.y <= m
        &&& -m <= self.z <= m
    }

    pub open spec fn add_spec(self, rhs: Vec3) -> Vec3 {
        Vec3 { x: (self.x + rhs.x) as i64, y: (self.y + rhs.y) as i64, z: (self.z + rhs.z) as i64 }
    }

    pub open spec fn sub_spec(self, rhs: Vec3) -> Vec3 {
        Vec3 { x: (self.x - rhs.x) as i64, y: (self.y - rhs.y) as i64, z: (self.z - rhs.z) as i64 }
    }

    pub open spec fn scale_spec(self, k: int) -> Vec3 {
        Vec3 {
            x: fx_mul(k, self.x as int) as i64,
            y: fx_mul(k, self.y as int) as i64,
            z: fx_mul(k, self.z as int) as i64,
        }
    }

    pub open spec fn div_spec(self, k: int) -> Vec3 {
        Vec3 {
            x: fx_div(self.x as int, k) as i64,
            y: fx_div(self.y as int, k) as i64,
            z: fx_div(self.z as int, k) as i64,
        }
    }

    pub open spec fn is_zero(self) -> bool {
        self.x == 0 && self.y == 0 && self.z == 0
    }

    /// Exact dot product, in units of `ONE * ONE`.
    pub open spec fn dot_raw(self, rhs: Vec3) -> int {
        self.x * rhs.x + self.y * rhs.y + self.z * rhs.z
    }

    /// Exact squared length, in units of `ONE * ONE`.
    pub open spec fn len2_raw(self) -> int {
        self.dot_raw(self)
    }

    pub open spec fn dot_spec(self, rhs: Vec3) -> int {
        tdiv(self.dot_raw(rhs), ONE as int)
    }

    pub open spec fn cross_spec(self, rhs: Vec3) -> Vec3 {
        Vec3 {
            x: tdiv(self.y * rhs.z - self.z * rhs.y, ONE as int) as i64,
            y: tdiv(self.z * rhs.x - self.x * rhs.z, ONE as int) as i64,
            z: tdiv(self.x * rhs.y - self.y * rhs.x, ONE as int) as i64,
        }
    }

    pub open spec fn neg_spec(self) -> Vec3 {
        Vec3 { x: -self.x as i64, y: -self.y as i64, z: -self.z as i64 }
    }

    /// Length in fixed point, rounded down.
    pub open spec fn length_spec(self) -> int {
        isqrt_spec(self.len2_raw() as nat) as int
    }

    /// Length in units of `1 / (ONE * ONE)`, rounded down: the precision that
    /// normalization divides by.
    pub open spec fn fine_length_spec(self) -> int {
        isqrt_spec((self.len2_raw() * (ONE * ONE)) as nat) as int
    }

    pub open spec fn unit_spec(self) -> Vec3 {
        Vec3 {
            x: tdiv(self.x * ONE * ONE, self.fine_length_spec()) as i64,
            y: tdiv(self.y * ONE * ONE, self.fine_length_spec()) as i64,
            z: tdiv(self.z * ONE * ONE, self.fine_length_spec()) as i64,
        }
    }

    pub fn new(x: i64, y: i64, z: i64) -> (r: Vec3)
        ensures
            r.x == x && r.y == y && r.z == z,
    {
        Vec3 { x, y, z }
    }

    pub fn add(&self, rhs: &Vec3) -> (r: Vec3)
        requires
            self.bounded(),
            rhs.bounded(),
        ensures
            r == self.add_spec(*rhs),
            r.x == self.x + rhs.x,
            r.y == self.y + rhs.y,
            r.z == self.z + rhs.z,
    {
        Vec3 { x: self.x + rhs.x, y: self.y + rhs.y, z: self.z + rhs.z }
    }

    pub fn sub(&self, rhs: &Vec3) -> (r: Vec3)
        requires
            self.bounded(),
            rhs.bounded(),
        ensures
            r == self.sub_spec(*rhs),
            r.x == self.x - rhs.x,
            r.y == self.y - rhs.y,
            r.z == self.z - rhs.z,
    {
        Vec3 { x: self.x - rhs.x, y: self.y - rhs.y, z: self.z - rhs.z }
    }

    pub fn neg(&self) -> (r: Vec3)
        requires
            self.bounded(),
        ensures
            r == self.neg_spec(),
            r.x == -self.x && r.y == -self.y && r.z == -self.z,
    {
        Vec3 { x: -self.x, y: -self.y, z: -self.z }
    }

    /// Negates the vector in place.
    pub fn reverse(&mut self)
        requires
            old(self).bounded(),
        ensures
            *final(self) == old(self).neg_spec(),
    {
        self.x = -self.x;
        self.y = -self.y;
        self.z = -self.z;
    }

    pub fn add_assign(&mut self, rhs: &Vec3)
        requires
            old(self).bounded(),
            rhs.bounded(),
        ensures
            *final(self) == old(self).add_spec(*rhs),
    {
        *self = self.add(rhs);
    }

    pub fn sub_assign(&mut self, rhs: &Vec3)
        requires
            old(self).bounded(),
            rhs.bounded(),
        ensures
            *final(self) == old(self).sub_spec(*rhs),
    {
        *self = self.sub(rhs);
    }

    /// Multiplies componentwise in place.
    pub fn mul_assign(&mut self, rhs: &Vec3)
        requires
            old(self).bounded(),
            rhs.bounded(),
        ensures
            final(self).x == fx_mul(old(self).x as int, rhs.x as int),
            final(self).y == fx_mul(old(self).y as int, rhs.y as int),
            final(self).z == fx_mul(old(self).z as int, rhs.z as int),
    {
        *self = self.hadamard(rhs);
    }

    pub fn div_assign(&mut self, k: i64)
        requires
            old(self).bounded(),
            k != 0,
            k != i64::MIN,
        ensures
            *final(self) == old(self).div_spec(k as int),
    {
        *self = self.div(k);
    }

    /// Componentwise product.
    pub fn hadamard(&self, rhs: &Vec3) -> (r: Vec3)
        requires
            self.bounded(),
            rhs.bounded(),
        ensures
            r.x == fx_mul(self.x as int, rhs.x as int),
            r.y == fx_mul(self.y as int, rhs.y as int),
            r.z == fx_mul(self.z as int, rhs.z as int),
    {
        Vec3 { x: mul_fx(self.x, rhs.x), y: mul_fx(self.y, rhs.y), z: mul_fx(self.z, rhs.z) }
    }

    /// Product with the scalar `k`.
    pub fn scale(&self, k: i64) -> (r: Vec3)
        requires
            self.bounded(),
            -COORD <= k <= COORD,
        ensures
            r == self.scale_spec(k as int),
            r.x == fx_mul(k as int, self.x as int),
            r.y == fx_mul(k as int, self.y as int),
            r.z == fx_mul(k as int, self.z as int),
    {
        Vec3 { x: mul_fx(k, self.x), y: mul_fx(k, self.y), z: mul_fx(k, self.z) }
    }

    /// Quotient by the non-zero scalar `k`.
    pub fn div(&self, k: i64) -> (r: Vec3)
        requires
            self.bounded(),
            k != 0,
            k != i64::MIN,
        ensures
            r == self.div_spec(k as int),
            r.x == fx_div(self.x as int, k as int),
            r.y == fx_div(self.y as int, k as int),
            r.z == fx_div(self.z as int, k as int),
    {
        Vec3 { x: div_fx(self.x, k), y: div_fx(self.y, k), z: div_fx(self.z, k) }
    }

    pub fn dot(&self, rhs: &Vec3) -> (r: i64)
        requires
            self.bounded(),
            rhs.bounded(),
        ensures
            r == self.dot_spec(*rhs),
    {
        let raw = self.dot_raw_exec(rhs);
        tdiv_exec(raw, ONE as i128) as i64
    }

    /// Right-handed cross product.
    pub fn cross(&self, rhs: &Vec3) -> (r: Vec3)
        requires
            self.bounded(),
            rhs.bounded(),
        ensures
            r == self.cross_spec(*rhs),
            r.x == tdiv(self.y * rhs.z - self.z * rhs.y, ONE as int),
            r.y == tdiv(self.z * rhs.x - self.x * rhs.z, ONE as int),
            r.z == tdiv(self.x * rhs.y - self.y * rhs.x, ONE as int),
    {
        Vec3 {
            x: cross_term(self.y, rhs.z, self.z, rhs.y),
            y: cross_term(self.z, rhs.x, self.x, rhs.z),
            z: cross_term(self.x, rhs.y, self.y, rhs.x),
        }
    }

    pub fn length_squared(&self) -> (r: i64)
        requires
            self.bounded(),
        ensures
            r == tdiv(self.len2_raw(), ONE as int),
            r >= 0,
    {
        let raw = self.dot_raw_exec(self);
        proof {
            self.lemma_len2_nonneg();
            lemma_tdiv_bounds(raw as int, ONE as int, 3 * COORD * COORD);
        }
        tdiv_exec(raw, ONE as i128) as i64
    }

    pub fn length(&self) -> (r: i64)
        requires
            self.bounded(),
        ensures
            r == self.length_spec(),
            is_root(self.len2_raw(), r as int),
            0 <= r <= 2 * COORD,
    {
        let raw = self.dot_raw_exec(self);
        proof {
            self.lemma_len2_nonneg();
        }
        let r = isqrt(raw as u128);
        proof {
            self.lemma_length_bound();
        }
        r as i64
    }

    /// The vector scaled to length `ONE`; the vector must not be zero.
    pub fn unit(&self) -> (r: Vec3)
        requires
            self.bounded(),
            !self.is_zero(),
        ensures
            r == self.unit_spec(),
            -ONE <= r.x <= ONE && -ONE <= r.y <= ONE && -ONE <= r.z <= ONE,
            (ONE - 2) * (ONE - 2) <= r.len2_raw() < (ONE + 1) * (ONE + 1),
    {
        let raw = self.dot_raw_exec(self);
        proof {
            self.lemma_len2_nonneg();
            assert(0 <= raw * (ONE * ONE) <= 3 * COORD * COORD * (ONE * ONE)) by (nonlinear_arith)
                requires
                    0 <= raw <= 3 * COORD * COORD,
            ;
        }
        let len = isqrt(raw as u128 * (ONE as u128 * ONE as u128));
        proof {
            self.lemma_fine_length_positive();
            self.lemma_unit_components();
            lemma_unit_length(*self);
            assert(len * len <= 3 * COORD * COORD * (ONE * ONE));
            assert(len <= 4 * COORD * ONE) by (nonlinear_arith)
                requires
                    len * len <= 3 * COORD * COORD * (ONE * ONE),
                    len >= 0,
            ;
            lemma_mul_bound(self.x as int, ONE * ONE, COORD as int, ONE * ONE);
            lemma_mul_bound(self.y as int, ONE * ONE, COORD as int, ONE * ONE);
            lemma_mul_bound(self.z as int, ONE * ONE, COORD as int, ONE * ONE);
        }
        let l = len as i128;
        let oo: i128 = ONE as i128 * ONE as i128;
        Vec3 {
            x: tdiv_exec(self.x as i128 * oo, l) as i64,
            y: tdiv_exec(self.y as i128 * oo, l) as i64,
            z: tdiv_exec(self.z as i128 * oo, l) as i64,
        }
    }

    /// The coordinate on axis `i`.
    pub fn index(&self, i: usize) -> (r: i64)
        requires
            i < 3,
        ensures
            i == 0 ==> r == self.x,
            i == 1 ==> r == self.y,
            i == 2 ==> r == self.z,
    {
        if i == 0 {
            self.x
        } else if i == 1 {
            self.y
        } else {
            self.z
        }
    }

    /// The exact squared length, in units of `ONE * ONE`.
    pub fn length_squared_raw(&self) -> (r: i128)
        requires
            self.bounded(),
        ensures
            r == self.len2_raw(),
    {
        self.dot_raw_exec(self)
    }

    /// A value with the sign of the exact dot product.
    pub fn dot_sign(&self, rhs: &Vec3) -> (r: i128)
        requires
            self.bounded(),
            rhs.bounded(),
        ensures
            r == self.dot_raw(*rhs),
    {
        self.dot_raw_exec(rhs)
    }

    fn dot_raw_exec(&self, rhs: &Vec3) -> (r: i128)
        requires
            self.bounded(),
            rhs.bounded(),
        ensures
            r == self.dot_raw(*rhs),
            -3 * COORD * COORD <= r <= 3 * COORD * COORD,
    {
        proof {
            lemma_mul_bound(self.x as int, rhs.x as int, COORD as int, COORD as int);
            lemma_mul_bound(self.y as int, rhs.y as int, COORD as int, COORD as int);
            lemma_mul_bound(self.z as int, rhs.z as int, COORD as int, COORD as int);
        }
        self.x as i128 * rhs.x as i128 + self.y as i128 * rhs.y as i128 + self.z as i128
            * rhs.z as i128
    }

    /// The length of a bounded vector is at most `2 * COORD`.
    pub proof fn lemma_length_bound(self)
        requires
            self.bounded(),
        ensures
            0 <= self.length_spec() <= 2 * COORD,
    {
        let n = self.len2_raw();
        self.lemma_len2_nonneg();
        lemma_mul_bound(self.x as int, self.x as int, COORD as int, COORD as int);
        lemma_mul_bound(self.y as int, self.y as int, COORD as int, COORD as int);
        lemma_mul_bound(self.z as int, self.z as int, COORD as int, COORD as int);
        lemma_isqrt_spec(n as nat);
        let s = self.length_spec();
        assert(s * s <= 3 * COORD * COORD);
        assert(s <= 2 * COORD) by (nonlinear_arith)
            requires
                s * s <= 3 * COORD * COORD,
                s >= 0,
        ;
    }

    pub proof fn lemma_len2_nonneg(self)
        ensures
            self.len2_raw() >= 0,
            self.x * self.x <= self.len2_raw(),
            self.y * self.y <= self.len2_raw(),
            self.z * self.z <= self.len2_raw(),
    {
        assert(self.x * self.x >= 0 && self.y * self.y >= 0 && self.z * self.z >= 0)
            by (nonlinear_arith);
    }

    pub proof fn lemma_length_positive(self)
        requires
            self.bounded(),
            !self.is_zero(),
        ensures
            self.length_spec() >= 1,
    {
        let n = self.len2_raw();
        self.lemma_len2_nonneg();
        if self.x != 0 {
            assert(self.x * self.x >= 1) by (nonlinear_arith)
                requires
                    self.x != 0,
            ;
        } else if self.y != 0 {
            assert(self.y * self.y >= 1) by (nonlinear_arith)
                requires
                    self.y != 0,
            ;
        } else {
            assert(self.z * self.z >= 1) by (nonlinear_arith)
                requires
                    self.z != 0,
            ;
        }
        lemma_isqrt_spec(n as nat);
        let s = isqrt_spec(n as nat) as int;
        assert(is_root(n, s));
        if s == 0 {
            assert((s + 1) * (s + 1) == 1) by (nonlinear_arith)
                requires
                    s == 0,
            ;
        }
    }

    /// Each coordinate of the unit vector lies in `[-ONE, ONE]` and keeps its sign.
    pub proof fn lemma_unit_components(self)
        requires
            self.bounded(),
            !self.is_zero(),
        ensures
            -ONE <= self.unit_spec().x <= ONE,
            -ONE <= self.unit_spec().y <= ONE,
            -ONE <= self.unit_spec().z <= ONE,
            self.x >= 0 ==> self.unit_spec().x >= 0,
            self.x <= 0 ==> self.unit_spec().x <= 0,
            self.y >= 0 ==> self.unit_spec().y >= 0,
            self.y <= 0 ==> self.unit_spec().y <= 0,
            self.z >= 0 ==> self.unit_spec().z >= 0,
            self.z <= 0 ==> self.unit_spec().z <= 0,
            self.unit_spec().x == tdiv(self.x * ONE * ONE, self.fine_length_spec()),
            self.unit_spec().y == tdiv(self.y * ONE * ONE, self.fine_length_spec()),
            self.unit_spec().z == tdiv(self.z * ONE * ONE, self.fine_length_spec()),
    {
        self.lemma_fine_length_positive();
        let n = self.len2_raw() * (ONE * ONE);
        let l = self.fine_length_spec();
        self.lemma_len2_nonneg();
        self.lemma_fine_coordinates();
        lemma_abs_le_isqrt(self.x * ONE, n as nat);
        lemma_abs_le_isqrt(self.y * ONE, n as nat);
        lemma_abs_le_isqrt(self.z * ONE, n as nat);
        lemma_scaled_quotient(self.x * ONE, l);
        lemma_scaled_quotient(self.y * ONE, l);
        lemma_scaled_quotient(self.z * ONE, l);
        assert(self.x * ONE * ONE == (self.x * ONE) * ONE);
        assert(self.x >= 0 ==> self.x * ONE >= 0);
        assert(self.x <= 0 ==> self.x * ONE <= 0);
        assert(self.y >= 0 ==> self.y * ONE >= 0);
        assert(self.y <= 0 ==> self.y * ONE <= 0);
        assert(self.z >= 0 ==> self.z * ONE >= 0);
        assert(self.z <= 0 ==> self.z * ONE <= 0);
    }

    /// The scaled coordinates square to no more than the scaled squared length.
    proof fn lemma_fine_coordinates(self)
        ensures
            (self.x * ONE) * (self.x * ONE) <= self.len2_raw() * (ONE * ONE),
            (self.y * ONE) * (self.y * ONE) <= self.len2_raw() * (ONE * ONE),
            (self.z * ONE) * (self.z * ONE) <= self.len2_raw() * (ONE * ONE),
            (self.x * ONE) * (self.x * ONE) + (self.y * ONE) * (self.y * ONE) + (self.z * ONE) * (
            self.z * ONE) == self.len2_raw() * (ONE * ONE),
    {
        self.lemma_len2_nonneg();
        let oo = ONE * ONE;
        assert((self.x * ONE) * (self.x * ONE) == self.x * self.x * oo) by (nonlinear_arith)
            requires
                oo == ONE * ONE,
        ;
        assert((self.y * ONE) * (self.y * ONE) == self.y * self.y * oo) by (nonlinear_arith)
            requires
                oo == ONE * ONE,
        ;
        assert((self.z * ONE) * (self.z * ONE) == self.z * self.z * oo) by (nonlinear_arith)
            requires
                oo == ONE * ONE,
        ;
        assert(self.x * self.x * oo + self.y * self.y * oo + self.z * self.z * oo
            == self.len2_raw() * oo) by (nonlinear_arith)
            requires
                self.len2_raw() == self.x * self.x + self.y * self.y + self.z * self.z,
        ;
        assert(self.x * self.x * oo <= self.len2_raw() * oo && self.y * self.y * oo
            <= self.len2_raw() * oo && self.z * self.z * oo <= self.len2_raw() * oo)
            by (nonlinear_arith)
            requires
                self.x * self.x <= self.len2_raw(),
                self.y * self.y <= self.len2_raw(),
                self.z * self.z <= self.len2_raw(),
                oo >= 0,
        ;
    }

    /// A non-zero vector has a fine length of at least `ONE`.
    pub proof fn lemma_fine_length_positive(self)
        requires
            self.bounded(),
            !self.is_zero(),
        ensures
            self.fine_length_spec() >= ONE,
    {
        self.lemma_length_positive();
        self.lemma_len2_nonneg();
        let s = self.len2_raw();
        lemma_isqrt_spec(s as nat);
        assert(is_root(s, self.length_spec()));
        assert(s >= 1) by (nonlinear_arith)
            requires
                (self.length_spec() + 1) * (self.length_spec() + 1) > s,
                self.length_spec() * self.length_spec() <= s,
                self.length_spec() >= 1,
        ;
        let n = s * (ONE * ONE);
        assert(n >= ONE * ONE) by (nonlinear_arith)
            requires
                s >= 1,
                n == s * (ONE * ONE),
        ;
        lemma_isqrt_spec(n as nat);
        let l = self.fine_length_spec();
        assert(is_root(n, l));
        if l < ONE {
            assert((l + 1) * (l + 1) <= ONE * ONE) by (nonlinear_arith)
                requires
                    l + 1 <= ONE,
                    l >= 0,
            ;
        }
    }
}

/// The cross product is antisymmetric: `a x b == -(b x a)`.
pub proof fn lemma_cross_antisymmetric(a: Vec3, b: Vec3)
    requires
        a.bounded(),
        b.bounded(),
    ensures
        a.cross_spec(b) == b.cross_spec(a).neg_spec(),
{
    lemma_tdiv_neg(b.y * a.z - b.z * a.y, ONE as int);
    lemma_tdiv_neg(b.z * a.x - b.x * a.z, ONE as int);
    lemma_tdiv_neg(b.x * a.y - b.y * a.x, ONE as int);
    assert(a.y * b.z - a.z * b.y == -(b.y * a.z - b.z * a.y)) by (nonlinear_arith);
    assert(a.z * b.x - a.x * b.z == -(b.z * a.x - b.x * a.z)) by (nonlinear_arith);
    assert(a.x * b.y - a.y * b.x == -(b.x * a.y - b.y * a.x)) by (nonlinear_arith);
    lemma_mul_bound(a.y as int, b.z as int, COORD as int, COORD as int);
    lemma_mul_bound(a.z as int, b.y as int, COORD as int, COORD as int);
    lemma_mul_bound(a.z as int, b.x as int, COORD as int, COORD as int);
    lemma_mul_bound(a.x as int, b.z as int, COORD as int, COORD as int);
    lemma_mul_bound(a.x as int, b.y as int, COORD as int, COORD as int);
    lemma_mul_bound(a.y as int, b.x as int, COORD as int, COORD as int);
    lemma_tdiv_bounds(b.y * a.z - b.z * a.y, ONE as int, 2 * COORD * COORD);
    lemma_tdiv_bounds(b.z * a.x - b.x * a.z, ONE as int, 2 * COORD * COORD);
    lemma_tdiv_bounds(b.x * a.y - b.y * a.x, ONE as int, 2 * COORD * COORD);
}

/// The dot product is symmetric.
pub proof fn lemma_dot_symmetric(a: Vec3, b: Vec3)
    ensures
        a.dot_spec(b) == b.dot_spec(a),
{
    assert(a.dot_raw(b) == b.dot_raw(a)) by (nonlinear_arith);
}

pub open spec fn abs(a: int) -> int {
    if a < 0 {
        -a
    } else {
        a
    }
}

/// A quotient rounded toward zero loses less than one divisor: `|q| l <= |a| < (|q| + 1) l`.
proof fn lemma_tdiv_sandwich(a: int, l: int)
    requires
        l >= 1,
    ensures
        abs(tdiv(a, l)) * l <= abs(a) < (abs(tdiv(a, l)) + 1) * l,
        abs(tdiv(a, l)) == abs(a) / l,
{
    let m = abs(a);
    vstd::arithmetic::div_mod::lemma_fundamental_div_mod(m, l);
    vstd::arithmetic::div_mod::lemma_div_pos_is_pos(m, l);
    assert((m / l) * l <= m < (m / l + 1) * l) by (nonlinear_arith)
        requires
            m == l * (m / l) + m % l,
            0 <= m % l < l,
    ;
}

/// Squares of the sandwich of `lemma_tdiv_sandwich`, for `a = c * ONE`.
proof fn lemma_unit_coordinate(c: int, l: int)
    requires
        l >= 1,
    ensures
        tdiv(c * ONE, l) * tdiv(c * ONE, l) * (l * l) <= c * c * (ONE * ONE),
        c * c * (ONE * ONE) < (abs(tdiv(c * ONE, l)) + 1) * (abs(tdiv(c * ONE, l)) + 1) * (l * l),
{
    let a = c * ONE;
    let q = tdiv(a, l);
    lemma_tdiv_sandwich(a, l);
    let aq = abs(q);
    let aa = abs(a);
    assert(aa * aa == c * c * (ONE * ONE)) by (nonlinear_arith)
        requires
            a == c * ONE,
            aa == abs(a),
    ;
    assert(q * q == aq * aq) by (nonlinear_arith)
        requires
            aq == abs(q),
    ;
    assert(aq * aq * (l * l) <= aa * aa) by (nonlinear_arith)
        requires
            0 <= aq * l <= aa,
            aq >= 0,
            l >= 1,
    ;
    assert(aa * aa < (aq + 1) * (aq + 1) * (l * l)) by (nonlinear_arith)
        requires
            0 <= aa < (aq + 1) * l,
            aq >= 0,
            l >= 1,
    ;
}

/// Normalization is exact up to rounding: for every non-zero vector the unit vector's
/// length lies in `[1 - 2/ONE, 1 + 1/ONE)`. Its coordinates lie in `[-1, 1]` and keep
/// their signs (`lemma_unit_components`), and it points the way of `v`.
pub proof fn lemma_unit_length(v: Vec3)
    requires
        v.bounded(),
        !v.is_zero(),
    ensures
        (ONE - 2) * (ONE - 2) <= v.unit_spec().len2_raw() < (ONE + 1) * (ONE + 1),
        v.unit_spec().dot_raw(v) > 0,
{
    let l = v.fine_length_spec();
    let n = v.len2_raw() * (ONE * ONE);
    v.lemma_len2_nonneg();
    v.lemma_fine_length_positive();
    v.lemma_fine_coordinates();
    v.lemma_unit_components();
    lemma_isqrt_spec(n as nat);
    assert(is_root(n, l));
    let (cx, cy, cz) = (v.x * ONE, v.y * ONE, v.z * ONE);
    lemma_unit_coordinate(cx, l);
    lemma_unit_coordinate(cy, l);
    lemma_unit_coordinate(cz, l);
    let u = v.unit_spec();
    let (ux, uy, uz) = (tdiv(cx * ONE, l), tdiv(cy * ONE, l), tdiv(cz * ONE, l));
    assert(u.x == ux && u.y == uy && u.z == uz);
    let u2 = u.len2_raw();
    u.lemma_len2_nonneg();
    let ll = l * l;
    let oo = ONE * ONE;
    assert(u2 * ll <= n * oo) by (nonlinear_arith)
        requires
            ux * ux * ll <= cx * cx * oo,
            uy * uy * ll <= cy * cy * oo,
            uz * uz * ll <= cz * cz * oo,
            u2 == ux * ux + uy * uy + uz * uz,
            n == cx * cx + cy * cy + cz * cz,
    ;
    assert(u2 < (ONE + 1) * (ONE + 1)) by (nonlinear_arith)
        requires
            u2 * ll <= n * oo,
            n < (l + 1) * (l + 1),
            l >= ONE,
            ll == l * l,
            oo == ONE * ONE,
            u2 >= 0,
    ;
    let (ax, ay, az) = (abs(ux), abs(uy), abs(uz));
    let w = (ax + 1) * (ax + 1) + (ay + 1) * (ay + 1) + (az + 1) * (az + 1);
    assert(n * oo < w * ll) by (nonlinear_arith)
        requires
            cx * cx * oo < (ax + 1) * (ax + 1) * ll,
            cy * cy * oo < (ay + 1) * (ay + 1) * ll,
            cz * cz * oo < (az + 1) * (az + 1) * ll,
            w == (ax + 1) * (ax + 1) + (ay + 1) * (ay + 1) + (az + 1) * (az + 1),
            n == cx * cx + cy * cy + cz * cz,
    ;
    assert(w > oo) by (nonlinear_arith)
        requires
            n * oo < w * ll,
            l * l <= n,
            ll == l * l,
            l >= 1,
            oo > 0,
    ;
    lemma_abs_half_square(ux);
    lemma_abs_half_square(uy);
    lemma_abs_half_square(uz);
    assert(w == u2 + 2 * (ax + ay + az) + 3) by (nonlinear_arith)
        requires
            w == (ax + 1) * (ax + 1) + (ay + 1) * (ay + 1) + (az + 1) * (az + 1),
            u2 == ux * ux + uy * uy + uz * uz,
            ax * ax == ux * ux,
            ay * ay == uy * uy,
            az * az == uz * uz,
    ;
    assert((ONE - 2) * (ONE - 2) <= u2);
    // the sign of each coordinate of `u` follows `v`, and `u` is not zero
    if ux == 0 && uy == 0 && uz == 0 {
        assert(u2 == 0) by (nonlinear_arith)
            requires
                ux == 0 && uy == 0 && uz == 0,
                u2 == ux * ux + uy * uy + uz * uz,
        ;
    }
    assert(ux * v.x >= 0 && uy * v.y >= 0 && uz * v.z >= 0) by (nonlinear_arith)
        requires
            v.x >= 0 ==> ux >= 0,
            v.x <= 0 ==> ux <= 0,
            v.y >= 0 ==> uy >= 0,
            v.y <= 0 ==> uy <= 0,
            v.z >= 0 ==> uz >= 0,
            v.z <= 0 ==> uz <= 0,
    ;
    if ux != 0 {
        assert(ux * v.x > 0) by (nonlinear_arith)
            requires
                ux != 0,
                v.x >= 0 ==> ux >= 0,
                v.x <= 0 ==> ux <= 0,
                v.x == 0 ==> ux == 0,
        ;
    } else if uy != 0 {
        assert(uy * v.y > 0) by (nonlinear_arith)
            requires
                uy != 0,
                v.y >= 0 ==> uy >= 0,
                v.y <= 0 ==> uy <= 0,
                v.y == 0 ==> uy == 0,
        ;
    } else {
        assert(uz * v.z > 0) by (nonlinear_arith)
            requires
                uz != 0,
                v.z >= 0 ==> uz >= 0,
                v.z <= 0 ==> uz <= 0,
                v.z == 0 ==> uz == 0,
        ;
    }
    assert(u.dot_raw(v) == ux * v.x + uy * v.y + uz * v.z);
}

/// `4 |q| ONE <= 4 q^2 + ONE^2`, from `(2|q| - ONE)^2 >= 0`.
proof fn lemma_abs_half_square(q: int)
    ensures
        4 * abs(q) * ONE <= 4 * (q * q) + ONE * ONE,
        abs(q) * abs(q) == q * q,
        abs(q) >= 0,
{
    let a = abs(q);
    assert(a * a == q * q) by (nonlinear_arith)
        requires
            a == q || a == -q,
    ;
    assert(4 * a * ONE <= 4 * (a * a) + ONE * ONE) by (nonlinear_arith)
        requires
            a >= 0,
    ;
}

/// What rounding toward zero leaves over is smaller than the divisor.
proof fn lemma_tdiv_residual(a: int, l: int)
    requires
        l >= 1,
    ensures
        -l < a - tdiv(a, l) * l < l,
{
    lemma_tdiv_sandwich(a, l);
    lemma_tdiv_bounds(a, l, abs(a));
    let q = tdiv(a, l);
    assert((abs(q) + 1) * l == abs(q) * l + l) by (nonlinear_arith);
    if a >= 0 {
        assert(q >= 0);
        assert(q * l == abs(q) * l);
    } else {
        assert(q <= 0);
        assert(q * l == -(abs(q) * l)) by (nonlinear_arith)
            requires
                q <= 0,
        ;
    }
}

/// One coordinate of `unit(v) x v`: `q1 c2 - q2 c1` with `qi = ci ONE^2 / l`, where
/// `|ci| ONE <= l`, has magnitude at most `|c1| + |c2|`.
proof fn lemma_parallel_term(c1: int, c2: int, l: int)
    requires
        l >= 1,
    ensures
        abs(tdiv(c1 * ONE * ONE, l) * c2 - tdiv(c2 * ONE * ONE, l) * c1) <= abs(c1) + abs(c2),
{
    let q1 = tdiv(c1 * ONE * ONE, l);
    let q2 = tdiv(c2 * ONE * ONE, l);
    lemma_tdiv_residual(c1 * ONE * ONE, l);
    lemma_tdiv_residual(c2 * ONE * ONE, l);
    let e1 = c1 * ONE * ONE - q1 * l;
    let e2 = c2 * ONE * ONE - q2 * l;
    let x = q1 * c2 - q2 * c1;
    assert(x * l == e2 * c1 - e1 * c2) by (nonlinear_arith)
        requires
            e1 == c1 * ONE * ONE - q1 * l,
            e2 == c2 * ONE * ONE - q2 * l,
            x == q1 * c2 - q2 * c1,
    ;
    lemma_mul_bound(e2, c1, l, abs(c1));
    lemma_mul_bound(e1, c2, l, abs(c2));
    assert(l * (abs(c1) + abs(c2)) == l * abs(c1) + l * abs(c2)) by (nonlinear_arith);
    assert(-(abs(c1) + abs(c2)) <= x <= abs(c1) + abs(c2)) by (nonlinear_arith)
        requires
            x * l == e2 * c1 - e1 * c2,
            -(l * (abs(c1) + abs(c2))) <= x * l <= l * (abs(c1) + abs(c2)),
            0 <= abs(c1),
            0 <= abs(c2),
            l >= 1,
    ;
}

/// The unit vector is parallel to the vector: each coordinate of `unit(v) x v`, times
/// `ONE`, is at most the sum of the magnitudes of the other two coordinates of `v`, a
/// fraction `1 / ONE` of `v`'s scale.
pub proof fn lemma_unit_parallel(v: Vec3)
    requires
        v.bounded(),
        !v.is_zero(),
    ensures
        abs(v.unit_spec().cross_spec(v).x as int) * ONE <= abs(v.y as int) + abs(v.z as int),
        abs(v.unit_spec().cross_spec(v).y as int) * ONE <= abs(v.z as int) + abs(v.x as int),
        abs(v.unit_spec().cross_spec(v).z as int) * ONE <= abs(v.x as int) + abs(v.y as int),
{
    let l = v.fine_length_spec();
    v.lemma_fine_length_positive();
    v.lemma_unit_components();
    let u = v.unit_spec();
    lemma_parallel_term(v.y as int, v.z as int, l);
    lemma_parallel_term(v.z as int, v.x as int, l);
    lemma_parallel_term(v.x as int, v.y as int, l);
    lemma_tdiv_quotient_abs(u.y * v.z - u.z * v.y);
    lemma_tdiv_quotient_abs(u.z * v.x - u.x * v.z);
    lemma_tdiv_quotient_abs(u.x * v.y - u.y * v.x);
    lemma_mul_bound(u.y as int, v.z as int, ONE as int, COORD as int);
    lemma_mul_bound(u.z as int, v.y as int, ONE as int, COORD as int);
    lemma_mul_bound(u.z as int, v.x as int, ONE as int, COORD as int);
    lemma_mul_bound(u.x as int, v.z as int, ONE as int, COORD as int);
    lemma_mul_bound(u.x as int, v.y as int, ONE as int, COORD as int);
    lemma_mul_bound(u.y as int, v.x as int, ONE as int, COORD as int);
    lemma_tdiv_bounds(u.y * v.z - u.z * v.y, ONE as int, 2 * ONE * COORD);
    lemma_tdiv_bounds(u.z * v.x - u.x * v.z, ONE as int, 2 * ONE * COORD);
    lemma_tdiv_bounds(u.x * v.y - u.y * v.x, ONE as int, 2 * ONE * COORD);
}

/// `|tdiv(a, ONE)| * ONE <= |a|`.
proof fn lemma_tdiv_quotient_abs(a: int)
    ensures
        abs(tdiv(a, ONE as int)) * ONE <= abs(a),
{
    lemma_tdiv_sandwich(a, ONE as int);
}

/// `c * ONE / l` lies in `[-ONE, ONE]` when `|c| <= l`, with the sign of `c`.
proof fn lemma_scaled_quotient(c: int, l: int)
    requires
        l >= 1,
        -l <= c <= l,
    ensures
        -ONE <= tdiv(c * ONE, l) <= ONE,
        c >= 0 ==> tdiv(c * ONE, l) >= 0,
        c <= 0 ==> tdiv(c * ONE, l) <= 0,
{
    lemma_mul_bound(c, ONE as int, l, ONE as int);
    lemma_tdiv_bounds(c * ONE, l, l * ONE);
    vstd::arithmetic::div_mod::lemma_div_by_multiple(ONE as int, l);
    assert(l * ONE == ONE * l) by (nonlinear_arith);
    assert(c >= 0 ==> c * ONE >= 0) by (nonlinear_arith);
    assert(c <= 0 ==> c * ONE <= 0) by (nonlinear_arith);
}

/// Fixed-point product of two coordinates.
fn mul_fx(a: i64, b: i64) -> (r: i64)
    requires
        -COORD <= a <= COORD,
        -COORD <= b <= COORD,
    ensures
        r == fx_mul(a as int, b as int),
{
    proof {
        lemma_mul_bound(a as int, b as int, COORD as int, COORD as int);
        lemma_tdiv_bounds(a * b, ONE as int, COORD * COORD);
    }
    tdiv_exec(a as i128 * b as i128, ONE as i128) as i64
}

/// Fixed-point quotient of a coordinate by a non-zero scalar.
fn div_fx(a: i64, k: i64) -> (r: i64)
    requires
        -COORD <= a <= COORD,
        k != 0,
        k != i64::MIN,
    ensures
        r == fx_div(a as int, k as int),
{
    let m: i128 = a as i128 * ONE as i128;
    proof {
        lemma_mul_bound(a as int, ONE as int, COORD as int, ONE as int);
        lemma_tdiv_bounds(m as int, if k > 0 { k as int } else { -k }, COORD * ONE);
        vstd::arithmetic::div_mod::lemma_div_is_ordered_by_denominator(
            COORD * ONE,
            1,
            if k > 0 { k as int } else { -k },
        );
    }
    if k > 0 {
        tdiv_exec(m, k as i128) as i64
    } else {
        -(tdiv_exec(m, -(k as i128)) as i64)
    }
}

/// `(a * b - c * d) / ONE`, rounded toward zero.
fn cross_term(a: i64, b: i64, c: i64, d: i64) -> (r: i64)
    requires
        -COORD <= a <= COORD,
        -COORD <= b <= COORD,
        -COORD <= c <= COORD,
        -COORD <= d <= COORD,
    ensures
        r == tdiv(a * b - c * d, ONE as int),
{
    proof {
        lemma_mul_bound(a as int, b as int, COORD as int, COORD as int);
        lemma_mul_bound(c as int, d as int, COORD as int, COORD as int);
        lemma_tdiv_bounds(a * b - c * d, ONE as int, 2 * COORD * COORD);
    }
    tdiv_exec(a as i128 * b as i128 - c as i128 * d as i128, ONE as i128) as i64
}

} // verus!
