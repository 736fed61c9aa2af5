//! An explicitly passed pseudo-random source and the sampling distributions built on it.
//!
//! Uniform ranges are half-open: `range(lo, hi)` draws from `[lo, hi)`.
use vstd::prelude::*;
use crate::fixed::ONE;
use crate::vec3::Vec3;

verus! {

/// Draws that can be made from the generator before its sequence repeats, less one.
const PERIOD_LAST: u64 = 18446744073709551615;

/// A SplitMix64 generator. Each worker owns its own, so sampling needs no shared state.
pub struct Rng {
    state: u64,
}

impl Rng {
    /// The generator's whole state.
    pub closed spec fn seed(&self) -> u64 {
        self.state
    }

    pub fn new(seed: u64) -> (r: Rng)
        ensures
            r.seed() == seed,
    {
        Rng { state: seed }
    }

    /// The next 64 pseudo-random bits.
    pub fn next_u64(&mut self) -> u64 {
        self.state = self.state.wrapping_add(0x9E3779B97F4A7C15);
        let mut z: u64 = self.state;
        z = (z ^ (z >> 30u64)).wrapping_mul(0xBF58476D1CE4E5B9);
        z = (z ^ (z >> 27u64)).wrapping_mul(0x94D049BB133111EB);
        z ^ (z >> 31u64)
    }

    /// A value drawn from `[lo, hi)`.
    pub fn range(&mut self, lo: i64, hi: i64) -> (r: i64)
        requires
            lo < hi,
        ensures
            lo <= r < hi,
    {
        let span: u64 = (hi as i128 - lo as i128) as u64;
        let k: u64 = self.next_u64() % span;
        (lo as i128 + k as i128) as i64
    }

    /// An approximately standard-normal fixed-point value: the sum of twelve
    /// uniform draws from `[0, 1)`, less six.
    pub fn normal(&mut self) -> (r: i64)
        ensures
            -6 * ONE <= r < 6 * ONE,
    {
        let mut sum: i64 = 0;
        let mut i: u32 = 0;
        while i < 12
            invariant
                i <= 12,
                0 <= sum <= i * 65535,
            decreases 12 - i,
        {
            let u = self.range(0, ONE);
            sum = sum + u;
            i = i + 1;
        }
        sum - 6 * ONE
    }
}

impl Vec3 {
    /// A point with each coordinate uniform in `[-1, 1)`.
    pub fn random_in_unit_box(rng: &mut Rng) -> (r: Vec3)
        ensures
            -ONE <= r.x < ONE && -ONE <= r.y < ONE && -ONE <= r.z < ONE,
    {
        Vec3::random_range(rng, -ONE, ONE)
    }

    /// A point with each coordinate uniform in `[lo, hi)`.
    pub fn random_range(rng: &mut Rng, lo: i64, hi: i64) -> (r: Vec3)
        requires
            lo < hi,
        ensures
            lo <= r.x < hi && lo <= r.y < hi && lo <= r.z < hi,
    {
        let x = rng.range(lo, hi);
        let y = rng.range(lo, hi);
        let z = rng.range(lo, hi);
        Vec3::new(x, y, z)
    }

    /// A point uniform inside the open unit ball, by rejection from the unit box.
    ///
    /// The generator's sequence repeats after 2^64 draws; past that many rejected
    /// trials no new point could come, and the origin is returned.
    pub fn random_in_unit_sphere(rng: &mut Rng) -> (r: Vec3)
        ensures
            r.len2_raw() < ONE * ONE,
            -ONE <= r.x < ONE && -ONE <= r.y < ONE && -ONE <= r.z < ONE,
    {
        let mut tries: u64 = 0;
        loop
            invariant
                tries <= PERIOD_LAST,
            decreases PERIOD_LAST - tries,
        {
            let p = Vec3::random_in_unit_box(rng);
            if p.length_squared_raw() < ONE as i128 * ONE as i128 {
                return p;
            }
            if tries == PERIOD_LAST {
                return Vec3::new(0, 0, 0);
            }
            tries = tries + 1;
        }
    }

    /// A point of the unit ball on the side of `normal`: the ball sample, negated when
    /// it points away from `normal`.
    pub fn random_in_unit_hemisphere(rng: &mut Rng, normal: &Vec3) -> (r: Vec3)
        requires
            normal.bounded(),
        ensures
            exists|u: Vec3| u.len2_raw() < ONE * ONE && r == Vec3::orient_spec(u, *normal),
            r.len2_raw() < ONE * ONE,
            r.dot_raw(*normal) >= 0,
    {
        let u = Vec3::random_in_unit_sphere(rng);
        Vec3::orient(u, normal)
    }

    /// A point on the unit sphere, uniform in direction: a point of the unit ball
    /// outside the inner ball of radius one half, normalized. The shell's samples are
    /// spread evenly over all directions, and their length of at least one half keeps
    /// normalization exact to within two units.
    pub fn random_unit(rng: &mut Rng) -> (r: Vec3)
        ensures
            -ONE <= r.x <= ONE && -ONE <= r.y <= ONE && -ONE <= r.z <= ONE,
            (ONE - 2) * (ONE - 2) <= r.len2_raw() < (ONE + 1) * (ONE + 1),
    {
        let mut tries: u64 = 0;
        loop
            invariant
                tries <= PERIOD_LAST,
            decreases PERIOD_LAST - tries,
        {
            let p = Vec3::random_in_unit_sphere(rng);
            if p.length_squared_raw() >= ONE as i128 * ONE as i128 / 4 || tries == PERIOD_LAST {
                if p.x == 0 && p.y == 0 && p.z == 0 {
                    let e = Vec3::new(ONE, 0, 0);
                    assert(e.len2_raw() == ONE * ONE) by (nonlinear_arith)
                        requires
                            e.x == ONE && e.y == 0 && e.z == 0,
                    ;
                    assert((ONE - 2) * (ONE - 2) <= ONE * ONE < (ONE + 1) * (ONE + 1))
                        by (nonlinear_arith);
                    return e;
                }
                return p.unit();
            }
            tries = tries + 1;
        }
    }

    /// A point on the unit sphere on the side of `normal`.
    pub fn random_unit_dir(rng: &mut Rng, normal: &Vec3) -> (r: Vec3)
        requires
            normal.bounded(),
        ensures
            exists|u: Vec3|
                (ONE - 2) * (ONE - 2) <= u.len2_raw() < (ONE + 1) * (ONE + 1) && r
                    == Vec3::orient_spec(u, *normal),
            (ONE - 2) * (ONE - 2) <= r.len2_raw() < (ONE + 1) * (ONE + 1),
            r.dot_raw(*normal) >= 0,
    {
        let u = Vec3::random_unit(rng);
        Vec3::orient(u, normal)
    }

    /// A point uniform inside the open unit disk of the `xy` plane, by rejection.
    pub fn random_unit_disk(rng: &mut Rng) -> (r: Vec3)
        ensures
            r.z == 0,
            r.len2_raw() < ONE * ONE,
            -ONE <= r.x < ONE && -ONE <= r.y < ONE,
    {
        let mut tries: u64 = 0;
        loop
            invariant
                tries <= PERIOD_LAST,
            decreases PERIOD_LAST - tries,
        {
            let x = rng.range(-ONE, ONE);
            let y = rng.range(-ONE, ONE);
            let p = Vec3::new(x, y, 0);
            if p.length_squared_raw() < ONE as i128 * ONE as i128 {
                return p;
            }
            if tries == PERIOD_LAST {
                return Vec3::new(0, 0, 0);
            }
            tries = tries + 1;
        }
    }

    /// `u`, or `-u` when it points away from `normal`; a tie keeps `u`.
    pub open spec fn orient_spec(u: Vec3, normal: Vec3) -> Vec3 {
        if u.dot_raw(normal) >= 0 {
            u
        } else {
            u.neg_spec()
        }
    }

    /// `u`, or `-u` when it points away from `normal`; a tie keeps `u`.
    pub fn orient(u: Vec3, normal: &Vec3) -> (r: Vec3)
        requires
            -ONE <= u.x <= ONE && -ONE <= u.y <= ONE && -ONE <= u.z <= ONE,
            normal.bounded(),
        ensures
            r == Vec3::orient_spec(u, *normal),
            r.len2_raw() == u.len2_raw(),
            -ONE <= r.x <= ONE && -ONE <= r.y <= ONE && -ONE <= r.z <= ONE,
            r.dot_raw(*normal) >= 0,
    {
        if u.dot_sign(normal) >= 0 {
            u
        } else {
            let r = u.neg();
            assert(r.dot_raw(*normal) == -u.dot_raw(*normal)) by (nonlinear_arith)
                requires
                    r.x == -u.x && r.y == -u.y && r.z == -u.z,
            ;
            assert(r.len2_raw() == u.len2_raw()) by (nonlinear_arith)
                requires
                    r.x == -u.x && r.y == -u.y && r.z == -u.z,
            ;
            r
        }
    }
}

} // verus!
