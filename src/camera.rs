//! The thin-lens camera: a basis built once from a lens configuration, and rays
//! drawn through it with depth-of-field and motion-blur jitter.
use vstd::prelude::*;
use crate::fixed::{fx_mul, lemma_mul_bound, lemma_tdiv_bounds, tdiv, tdiv_exec, COORD, ONE};
use crate::random::Rng;
use crate::ray::Ray;
use crate::vec3::{fx_div, Point3, Vec3};

verus! {

/// Bound on the camera's positions and extents.
pub const FRAME: i64 = 268435456;

/// The largest tangent of half a field of view, at 179 degrees.
pub const TAN_MAX: i64 = 7509682;

/// An immutable camera. `build` of `CameraBuilder` makes one.
#[derive(Clone, Copy, Debug)]
pub struct Camera {
    pub origin: Point3,
    /// Lower-left corner of the focus rectangle.
    pub lb: Point3,
    pub horizontal_full: Vec3,
    pub vertical_full: Vec3,
    pub horizontal_unit: Vec3,
    pub vertical_unit: Vec3,
    pub aspect_ratio: i64,
    pub aperture: i64,
    pub shutter_speed: i64,
}

/// A lens configuration, built by chained setters.
#[derive(Clone, Copy, Debug)]
pub struct CameraBuilder {
    pub look_from: Point3,
    pub look_at: Point3,
    pub vup: Vec3,
    /// Vertical field of view, in whole degrees.
    pub fov: u32,
    pub aspect_ratio: i64,
    pub aperture: i64,
    pub focus_distance: i64,
    pub shutter_speed: i64,
}

impl Camera {
    /// The ranges within which ray generation cannot overflow.
    pub open spec fn wf(self) -> bool {
        &&& self.origin.within(FRAME as int)
        &&& self.lb.within(4 * FRAME)
        &&& self.horizontal_full.within(FRAME as int)
        &&& self.vertical_full.within(FRAME as int)
        &&& self.horizontal_unit.within(ONE as int)
        &&& self.vertical_unit.within(ONE as int)
        &&& 0 < self.aspect_ratio <= COORD
        &&& 0 <= self.aperture <= FRAME
        &&& -COORD <= self.shutter_speed <= COORD
    }

    /// Whether the camera is within the ranges of `wf`, as every built camera is.
    pub fn check_wf(&self) -> (r: bool)
        ensures
            r == self.wf(),
    {
        within(&self.origin, FRAME) && within(&self.lb, 4 * FRAME) && within(
            &self.horizontal_full,
            FRAME,
        ) && within(&self.vertical_full, FRAME) && within(&self.horizontal_unit, ONE) && within(
            &self.vertical_unit,
            ONE,
        ) && 0 < self.aspect_ratio && self.aspect_ratio <= COORD && 0 <= self.aperture
            && self.aperture <= FRAME && -COORD <= self.shutter_speed && self.shutter_speed <= COORD
    }

    /// The point of the focus rectangle at image-plane coordinates `(u, v)`.
    pub open spec fn target(self, u: int, v: int) -> Vec3 {
        self.lb.add_spec(self.horizontal_full.scale_spec(u)).add_spec(
            self.vertical_full.scale_spec(v),
        )
    }

    #[verifier::rlimit(50)]
    fn new(b: &CameraBuilder) -> (r: Option<Camera>)
        ensures
            r == b.camera_spec(),
    {
        if !b.check_range() {
            return None;
        }
        let diff = b.look_at.sub(&b.look_from);
        if diff.x == 0 && diff.y == 0 && diff.z == 0 {
            return None;
        }
        let w = diff.unit();
        let c = w.cross(&b.vup);
        proof {
            lemma_cross_within(w, b.vup, FRAME as int);
        }
        if c.x == 0 && c.y == 0 && c.z == 0 {
            return None;
        }
        let hu = c.unit();
        let vr = hu.cross(&w);
        proof {
            lemma_cross_within(hu, w, ONE as int);
        }
        if vr.x == 0 && vr.y == 0 && vr.z == 0 {
            return None;
        }
        let vu = vr.unit();
        let vh: i64 = 2 * tan_half_degrees(b.fov);
        let vw = mul_scalar(vh, b.aspect_ratio);
        if vw > FRAME {
            return None;
        }
        let kh = mul_scalar(b.focus_distance, vw);
        let kv = mul_scalar(b.focus_distance, vh);
        proof {
            lemma_mul_bound(b.focus_distance as int, vw as int, FRAME as int, FRAME as int);
            lemma_mul_bound(b.focus_distance as int, vh as int, FRAME as int, FRAME as int);
            lemma_tdiv_bounds(b.focus_distance * vw, ONE as int, FRAME * FRAME);
            lemma_tdiv_bounds(b.focus_distance * vh, ONE as int, FRAME * FRAME);
        }
        if kh < -FRAME || kh > FRAME || kv < -FRAME || kv > FRAME {
            return None;
        }
        let hf = hu.scale(kh);
        let vf = vu.scale(kv);
        proof {
            lemma_scale_unit_within(hu, kh as int, FRAME as int);
            lemma_scale_unit_within(vu, kv as int, FRAME as int);
            lemma_scale_unit_within(w, b.focus_distance as int, FRAME as int);
            lemma_halve_within(hf, FRAME as int);
            lemma_halve_within(vf, FRAME as int);
        }
        let half_h = hf.div(2 * ONE);
        let half_v = vf.div(2 * ONE);
        let fw = w.scale(b.focus_distance);
        let lb = b.look_from.sub(&half_h).sub(&half_v).add(&fw);
        Some(
            Camera {
                origin: b.look_from,
                lb,
                horizontal_full: hf,
                vertical_full: vf,
                horizontal_unit: hu,
                vertical_unit: vu,
                aspect_ratio: b.aspect_ratio,
                aperture: b.aperture,
                shutter_speed: b.shutter_speed,
            },
        )
    }

    /// The ray through image-plane coordinates `(u, v)` for the lens sample `disk` and
    /// the shutter sample `n`: cast from the origin moved in the lens plane by
    /// `(aperture / 2) * disk`, toward the focus rectangle, at `shutter_speed * n`.
    pub open spec fn ray_from_spec(self, u: int, v: int, disk: Vec3, n: int) -> Ray {
        let rd = disk.scale_spec(self.aperture / 2);
        let offset = self.horizontal_unit.scale_spec(rd.x as int).add_spec(
            self.vertical_unit.scale_spec(rd.y as int),
        );
        let origin = self.origin.add_spec(offset);
        Ray {
            origin,
            direction: self.target(u, v).sub_spec(origin),
            time: fx_mul(self.shutter_speed as int, n) as i64,
        }
    }

    /// A lens sample `disk` and shutter sample `n` that `ray` can draw.
    pub open spec fn drawn(disk: Vec3, n: int) -> bool {
        &&& disk.z == 0
        &&& disk.len2_raw() < ONE * ONE
        &&& -ONE <= disk.x < ONE && -ONE <= disk.y < ONE
        &&& -6 * ONE <= n < 6 * ONE
    }

    /// The ray through `(u, v)`, each in `[0, 1]`, for given lens and shutter samples.
    pub fn ray_from(&self, u: i64, v: i64, disk: Vec3, n: i64) -> (r: Ray)
        requires
            self.wf(),
            0 <= u <= ONE,
            0 <= v <= ONE,
            Camera::drawn(disk, n as int),
        ensures
            r == self.ray_from_spec(u as int, v as int, disk, n as int),
            r.bounded(),
            r.direction == self.target(u as int, v as int).sub_spec(r.origin),
            r.origin.sub_spec(self.origin).within(self.aperture as int),
            self.aperture == 0 ==> r.origin == self.origin,
            self.shutter_speed == 0 ==> r.time == 0,
    {
        let half: i64 = self.aperture / 2;
        let rd = disk.scale(half);
        proof {
            lemma_scale_unit_within(disk, half as int, half as int);
            lemma_scale_unit_within(self.horizontal_unit, rd.x as int, half as int);
            lemma_scale_unit_within(self.vertical_unit, rd.y as int, half as int);
        }
        let offset = self.horizontal_unit.scale(rd.x).add(&self.vertical_unit.scale(rd.y));
        let origin = self.origin.add(&offset);
        proof {
            lemma_unit_scale_within(self.horizontal_full, u as int, FRAME as int);
            lemma_unit_scale_within(self.vertical_full, v as int, FRAME as int);
        }
        let target = self.lb.add(&self.horizontal_full.scale(u)).add(&self.vertical_full.scale(v));
        let direction = target.sub(&origin);
        let time = mul_scalar(self.shutter_speed, n);
        proof {
            if self.shutter_speed == 0 {
                lemma_fx_mul_zero(n as int);
            }
            if self.aperture == 0 {
                assert(half == 0);
                lemma_fx_mul_zero(disk.x as int);
                lemma_fx_mul_zero(disk.y as int);
                assert(rd.x == 0 && rd.y == 0);
                lemma_fx_mul_zero(self.horizontal_unit.x as int);
                lemma_fx_mul_zero(self.horizontal_unit.y as int);
                lemma_fx_mul_zero(self.horizontal_unit.z as int);
                lemma_fx_mul_zero(self.vertical_unit.x as int);
                lemma_fx_mul_zero(self.vertical_unit.y as int);
                lemma_fx_mul_zero(self.vertical_unit.z as int);
                assert(offset.is_zero());
            }
        }
        Ray::new(origin, direction, time)
    }

    /// The ray through image-plane coordinates `(u, v)`, each in `[0, 1]`: cast from a
    /// point of the lens disk of diameter `aperture` around the origin, toward the
    /// focus rectangle, at an instant drawn from a normal spread of `shutter_speed`.
    pub fn ray(&self, u: i64, v: i64, rng: &mut Rng) -> (r: Ray)
        requires
            self.wf(),
            0 <= u <= ONE,
            0 <= v <= ONE,
        ensures
            exists|disk: Vec3, n: int|
                Camera::drawn(disk, n) && r == #[trigger] self.ray_from_spec(
                    u as int,
                    v as int,
                    disk,
                    n,
                ),
            r.bounded(),
            r.direction == self.target(u as int, v as int).sub_spec(r.origin),
            r.origin.sub_spec(self.origin).within(self.aperture as int),
            self.aperture == 0 ==> r.origin == self.origin,
            self.shutter_speed == 0 ==> r.time == 0,
    {
        let disk = Vec3::random_unit_disk(rng);
        let n = rng.normal();
        let r = self.ray_from(u, v, disk, n);
        assert(Camera::drawn(disk, n as int));
        r
    }
}

fn within(v: &Vec3, m: i64) -> (r: bool)
    requires
        m >= 0,
    ensures
        r == v.within(m as int),
{
    -m <= v.x && v.x <= m && -m <= v.y && v.y <= m && -m <= v.z && v.z <= m
}

/// Fixed-point product of two scalars.
fn mul_scalar(a: i64, b: i64) -> (r: i64)
    requires
        -COORD <= a <= COORD,
        -COORD <= b <= COORD,
    ensures
        r == fx_mul(a as int, b as int),
{
    proof {
        lemma_mul_bound(a as int, b as int, COORD as int, COORD as int);
        lemma_tdiv_bounds(a * b, ONE as int, COORD * COORD);
    }
    tdiv_exec(a as i128 * b as i128, ONE as i128) as i64
}

proof fn lemma_fx_mul_zero(c: int)
    ensures
        fx_mul(0, c) == 0,
{
    assert(0 * c == 0);
}

/// A fixed-point factor of magnitude at most `m` times a coordinate of magnitude at
/// most one stays within `m`.
proof fn lemma_fx_mul_unit(k: int, c: int, m: int)
    requires
        -m <= k <= m,
        -ONE <= c <= ONE,
    ensures
        -m <= fx_mul(k, c) <= m,
{
    lemma_mul_bound(k, c, m, ONE as int);
    lemma_tdiv_bounds(k * c, ONE as int, m * ONE);
    vstd::arithmetic::div_mod::lemma_div_multiples_vanish(m, ONE as int);
    assert(m * ONE == ONE * m) by (nonlinear_arith);
}

/// A vector within one, scaled by `k` with `|k| <= m`, lies within `m`.
proof fn lemma_scale_unit_within(v: Vec3, k: int, m: int)
    requires
        v.within(ONE as int),
        -m <= k <= m,
    ensures
        v.scale_spec(k).within(m),
{
    lemma_fx_mul_unit(k, v.x as int, m);
    lemma_fx_mul_unit(k, v.y as int, m);
    lemma_fx_mul_unit(k, v.z as int, m);
}

/// A vector within `m`, scaled by a factor in `[0, 1]`, lies within `m`.
proof fn lemma_unit_scale_within(v: Vec3, k: int, m: int)
    requires
        v.within(m),
        0 <= k <= ONE,
    ensures
        v.scale_spec(k).within(m),
{
    lemma_fx_mul_unit_rev(k, v.x as int, m);
    lemma_fx_mul_unit_rev(k, v.y as int, m);
    lemma_fx_mul_unit_rev(k, v.z as int, m);
}

proof fn lemma_fx_mul_unit_rev(k: int, c: int, m: int)
    requires
        0 <= k <= ONE,
        -m <= c <= m,
    ensures
        -m <= fx_mul(k, c) <= m,
{
    lemma_fx_mul_unit(c, k, m);
    assert(k * c == c * k) by (nonlinear_arith);
}

/// Halving a vector within `m` keeps it within `m`.
proof fn lemma_halve_within(v: Vec3, m: int)
    requires
        v.within(m),
        m >= 0,
    ensures
        v.div_spec(2 * ONE).within(m),
{
    lemma_halve(v.x as int, m);
    lemma_halve(v.y as int, m);
    lemma_halve(v.z as int, m);
}

proof fn lemma_halve(c: int, m: int)
    requires
        -m <= c <= m,
        m >= 0,
    ensures
        -m <= fx_div(c, 2 * ONE) <= m,
{
    lemma_mul_bound(c, ONE as int, m, ONE as int);
    lemma_tdiv_bounds(c * ONE, 2 * ONE, m * ONE);
    vstd::arithmetic::div_mod::lemma_div_is_ordered_by_denominator(m * ONE, ONE as int, 2 * ONE);
    vstd::arithmetic::div_mod::lemma_div_multiples_vanish(m, ONE as int);
    assert(m * ONE == ONE * m) by (nonlinear_arith);
}

/// The cross product of a vector within one and a vector within `m` lies within `2m`.
proof fn lemma_cross_within(a: Vec3, b: Vec3, m: int)
    requires
        a.within(ONE as int),
        b.within(m),
        0 <= m <= FRAME,
    ensures
        a.cross_spec(b).within(2 * m),
{
    lemma_cross_term(a.y as int, b.z as int, a.z as int, b.y as int, m);
    lemma_cross_term(a.z as int, b.x as int, a.x as int, b.z as int, m);
    lemma_cross_term(a.x as int, b.y as int, a.y as int, b.x as int, m);
}

proof fn lemma_cross_term(a: int, b: int, c: int, d: int, m: int)
    requires
        -ONE <= a <= ONE,
        -ONE <= c <= ONE,
        -m <= b <= m,
        -m <= d <= m,
        0 <= m,
    ensures
        -2 * m <= tdiv(a * b - c * d, ONE as int) <= 2 * m,
{
    lemma_mul_bound(a, b, ONE as int, m);
    lemma_mul_bound(c, d, ONE as int, m);
    lemma_tdiv_bounds(a * b - c * d, ONE as int, 2 * m * ONE);
    vstd::arithmetic::div_mod::lemma_div_multiples_vanish(2 * m, ONE as int);
    assert(2 * m * ONE == ONE * (2 * m)) by (nonlinear_arith);
}

/// `tan(deg / 2)` for a whole number of degrees in `(0, 180)`, rounded to the nearest
/// fixed-point value.
pub open spec fn tan_half_spec(deg: u32) -> int {
    match deg {
        1 => 572,
        2 => 1144,
        3 => 1716,
        4 => 2289,
        5 => 2861,
        6 => 3435,
        7 => 4008,
        8 => 4583,
        9 => 5158,
        10 => 5734,
        11 => 6310,
        12 => 6888,
        13 => 7467,
        14 => 8047,
        15 => 8628,
        16 => 9210,
        17 => 9794,
        18 => 10380,
        19 => 10967,
        20 => 11556,
        21 => 12146,
        22 => 12739,
        23 => 13333,
        24 => 13930,
        25 => 14529,
        26 => 15130,
        27 => 15734,
        28 => 16340,
        29 => 16949,
        30 => 17560,
        31 => 18175,
        32 => 18792,
        33 => 19413,
        34 => 20036,
        35 => 20663,
        36 => 21294,
        37 => 21928,
        38 => 22566,
        39 => 23208,
        40 => 23853,
        41 => 24503,
        42 => 25157,
        43 => 25815,
        44 => 26478,
        45 => 27146,
        46 => 27818,
        47 => 28496,
        48 => 29179,
        49 => 29866,
        50 => 30560,
        51 => 31259,
        52 => 31964,
        53 => 32675,
        54 => 33392,
        55 => 34116,
        56 => 34846,
        57 => 35583,
        58 => 36327,
        59 => 37078,
        60 => 37837,
        61 => 38604,
        62 => 39378,
        63 => 40161,
        64 => 40951,
        65 => 41751,
        66 => 42560,
        67 => 43377,
        68 => 44205,
        69 => 45042,
        70 => 45889,
        71 => 46746,
        72 => 47615,
        73 => 48494,
        74 => 49385,
        75 => 50288,
        76 => 51202,
        77 => 52130,
        78 => 53070,
        79 => 54024,
        80 => 54991,
        81 => 55973,
        82 => 56970,
        83 => 57981,
        84 => 59009,
        85 => 60053,
        86 => 61113,
        87 => 62191,
        88 => 63287,
        89 => 64402,
        90 => 65536,
        91 => 66690,
        92 => 67865,
        93 => 69061,
        94 => 70279,
        95 => 71520,
        96 => 72785,
        97 => 74075,
        98 => 75391,
        99 => 76733,
        100 => 78103,
        101 => 79502,
        102 => 80930,
        103 => 82390,
        104 => 83882,
        105 => 85408,
        106 => 86969,
        107 => 88567,
        108 => 90203,
        109 => 91878,
        110 => 93595,
        111 => 95355,
        112 => 97161,
        113 => 99014,
        114 => 100917,
        115 => 102871,
        116 => 104880,
        117 => 106945,
        118 => 109070,
        119 => 111258,
        120 => 113512,
        121 => 115834,
        122 => 118230,
        123 => 120702,
        124 => 123255,
        125 => 125893,
        126 => 128622,
        127 => 131445,
        128 => 134369,
        129 => 137399,
        130 => 140542,
        131 => 143806,
        132 => 147196,
        133 => 150722,
        134 => 154393,
        135 => 158218,
        136 => 162207,
        137 => 166373,
        138 => 170727,
        139 => 175284,
        140 => 180059,
        141 => 185068,
        142 => 190330,
        143 => 195866,
        144 => 201699,
        145 => 207854,
        146 => 214359,
        147 => 221246,
        148 => 228551,
        149 => 236315,
        150 => 244584,
        151 => 253409,
        152 => 262851,
        153 => 272977,
        154 => 283868,
        155 => 295614,
        156 => 308323,
        157 => 322120,
        158 => 337153,
        159 => 353601,
        160 => 371673,
        161 => 391628,
        162 => 413778,
        163 => 438512,
        164 => 466313,
        165 => 497795,
        166 => 533748,
        167 => 575202,
        168 => 623533,
        169 => 680617,
        170 => 749080,
        171 => 832714,
        172 => 937208,
        173 => 1071504,
        174 => 1250501,
        175 => 1501021,
        176 => 1876705,
        177 => 2502719,
        178 => 3754555,
        179 => 7509682,
        _ => 0,
    }
}

/// The table increases with the angle, as the tangent does on `(0, 90)` degrees.
pub proof fn lemma_tan_half_increasing(a: u32, b: u32)
    requires
        0 < a < b < 180,
    ensures
        0 < tan_half_spec(a) < tan_half_spec(b) <= TAN_MAX,
    decreases b - a,
{
    assert(tan_half_spec((b - 1) as u32) < tan_half_spec(b));
    if a + 1 < b {
        lemma_tan_half_increasing(a, (b - 1) as u32);
    }
}

/// `tan` of half of `deg` degrees, from the table of `tan_half_spec`.
fn tan_half_degrees(deg: u32) -> (r: i64)
    requires
        0 < deg < 180,
    ensures
        r == tan_half_spec(deg),
        0 < r <= TAN_MAX,
{
    match deg {
        1 => 572,
        2 => 1144,
        3 => 1716,
        4 => 2289,
        5 => 2861,
        6 => 3435,
        7 => 4008,
        8 => 4583,
        9 => 5158,
        10 => 5734,
        11 => 6310,
        12 => 6888,
        13 => 7467,
        14 => 8047,
        15 => 8628,
        16 => 9210,
        17 => 9794,
        18 => 10380,
        19 => 10967,
        20 => 11556,
        21 => 12146,
        22 => 12739,
        23 => 13333,
        24 => 13930,
        25 => 14529,
        26 => 15130,
        27 => 15734,
        28 => 16340,
        29 => 16949,
        30 => 17560,
        31 => 18175,
        32 => 18792,
        33 => 19413,
        34 => 20036,
        35 => 20663,
        36 => 21294,
        37 => 21928,
        38 => 22566,
        39 => 23208,
        40 => 23853,
        41 => 24503,
        42 => 25157,
        43 => 25815,
        44 => 26478,
        45 => 27146,
        46 => 27818,
        47 => 28496,
        48 => 29179,
        49 => 29866,
        50 => 30560,
        51 => 31259,
        52 => 31964,
        53 => 32675,
        54 => 33392,
        55 => 34116,
        56 => 34846,
        57 => 35583,
        58 => 36327,
        59 => 37078,
        60 => 37837,
        61 => 38604,
        62 => 39378,
        63 => 40161,
        64 => 40951,
        65 => 41751,
        66 => 42560,
        67 => 43377,
        68 => 44205,
        69 => 45042,
        70 => 45889,
        71 => 46746,
        72 => 47615,
        73 => 48494,
        74 => 49385,
        75 => 50288,
        76 => 51202,
        77 => 52130,
        78 => 53070,
        79 => 54024,
        80 => 54991,
        81 => 55973,
        82 => 56970,
        83 => 57981,
        84 => 59009,
        85 => 60053,
        86 => 61113,
        87 => 62191,
        88 => 63287,
        89 => 64402,
        90 => 65536,
        91 => 66690,
        92 => 67865,
        93 => 69061,
        94 => 70279,
        95 => 71520,
        96 => 72785,
        97 => 74075,
        98 => 75391,
        99 => 76733,
        100 => 78103,
        101 => 79502,
        102 => 80930,
        103 => 82390,
        104 => 83882,
        105 => 85408,
        106 => 86969,
        107 => 88567,
        108 => 90203,
        109 => 91878,
        110 => 93595,
        111 => 95355,
        112 => 97161,
        113 => 99014,
        114 => 100917,
        115 => 102871,
        116 => 104880,
        117 => 106945,
        118 => 109070,
        119 => 111258,
        120 => 113512,
        121 => 115834,
        122 => 118230,
        123 => 120702,
        124 => 123255,
        125 => 125893,
        126 => 128622,
        127 => 131445,
        128 => 134369,
        129 => 137399,
        130 => 140542,
        131 => 143806,
        132 => 147196,
        133 => 150722,
        134 => 154393,
        135 => 158218,
        136 => 162207,
        137 => 166373,
        138 => 170727,
        139 => 175284,
        140 => 180059,
        141 => 185068,
        142 => 190330,
        143 => 195866,
        144 => 201699,
        145 => 207854,
        146 => 214359,
        147 => 221246,
        148 => 228551,
        149 => 236315,
        150 => 244584,
        151 => 253409,
        152 => 262851,
        153 => 272977,
        154 => 283868,
        155 => 295614,
        156 => 308323,
        157 => 322120,
        158 => 337153,
        159 => 353601,
        160 => 371673,
        161 => 391628,
        162 => 413778,
        163 => 438512,
        164 => 466313,
        165 => 497795,
        166 => 533748,
        167 => 575202,
        168 => 623533,
        169 => 680617,
        170 => 749080,
        171 => 832714,
        172 => 937208,
        173 => 1071504,
        174 => 1250501,
        175 => 1501021,
        176 => 1876705,
        177 => 2502719,
        178 => 3754555,
        179 => 7509682,
        _ => 0,
    }
}

impl CameraBuilder {
    /// The inputs lie in the ranges within which the basis is computed.
    pub open spec fn in_range(self) -> bool {
        &&& self.look_from.within(FRAME as int)
        &&& self.look_at.within(FRAME as int)
        &&& self.vup.within(FRAME as int)
        &&& 0 < self.fov < 180
        &&& 0 < self.aspect_ratio <= COORD
        &&& 0 <= self.aperture <= FRAME
        &&& 0 <= self.focus_distance <= FRAME
        &&& -COORD <= self.shutter_speed <= COORD
    }

    /// The camera that `build` makes, or `None` when an input is out of range, the
    /// view direction is zero, or `vup` is parallel to it.
    pub open spec fn camera_spec(self) -> Option<Camera> {
        let diff = self.look_at.sub_spec(self.look_from);
        let w = diff.unit_spec();
        let c = w.cross_spec(self.vup);
        let hu = c.unit_spec();
        let vr = hu.cross_spec(w);
        let vu = vr.unit_spec();
        let vh = 2 * tan_half_spec(self.fov);
        let vw = fx_mul(vh, self.aspect_ratio as int);
        let kh = fx_mul(self.focus_distance as int, vw);
        let kv = fx_mul(self.focus_distance as int, vh);
        let hf = hu.scale_spec(kh);
        let vf = vu.scale_spec(kv);
        let lb = self.look_from.sub_spec(hf.div_spec(2 * ONE)).sub_spec(vf.div_spec(2 * ONE)).add_spec(
            w.scale_spec(self.focus_distance as int),
        );
        if self.in_range() && !diff.is_zero() && !c.is_zero() && !vr.is_zero() && vw <= FRAME
            && -FRAME <= kh <= FRAME && -FRAME <= kv <= FRAME {
            Some(
                Camera {
                    origin: self.look_from,
                    lb,
                    horizontal_full: hf,
                    vertical_full: vf,
                    horizontal_unit: hu,
                    vertical_unit: vu,
                    aspect_ratio: self.aspect_ratio,
                    aperture: self.aperture,
                    shutter_speed: self.shutter_speed,
                },
            )
        } else {
            None
        }
    }

    /// Whether the inputs lie in the ranges of `in_range`.
    pub fn check_range(&self) -> (r: bool)
        ensures
            r == self.in_range(),
    {
        within(&self.look_from, FRAME) && within(&self.look_at, FRAME) && within(&self.vup, FRAME)
            && 0 < self.fov && self.fov < 180 && 0 < self.aspect_ratio
            && self.aspect_ratio <= COORD && 0 <= self.aperture && self.aperture <= FRAME && 0
            <= self.focus_distance && self.focus_distance <= FRAME && -COORD <= self.shutter_speed
            && self.shutter_speed <= COORD
    }

    pub fn look_from(self, look_from: Point3) -> (r: Self)
        ensures
            r == (Self { look_from, ..self }),
    {
        Self { look_from, ..self }
    }

    pub fn look_at(self, look_at: Point3) -> (r: Self)
        ensures
            r == (Self { look_at, ..self }),
    {
        Self { look_at, ..self }
    }

    pub fn vup(self, vup: Vec3) -> (r: Self)
        ensures
            r == (Self { vup, ..self }),
    {
        Self { vup, ..self }
    }

    /// Sets the vertical field of view, in degrees.
    pub fn fov(self, fov: u32) -> (r: Self)
        requires
            0 < fov < 180,
        ensures
            r == (Self { fov, ..self }),
    {
        Self { fov, ..self }
    }

    pub fn aspect_ratio(self, aspect_ratio: i64) -> (r: Self)
        requires
            aspect_ratio > 0,
        ensures
            r == (Self { aspect_ratio, ..self }),
    {
        Self { aspect_ratio, ..self }
    }

    pub fn aperture(self, aperture: i64) -> (r: Self)
        requires
            aperture >= 0,
        ensures
            r == (Self { aperture, ..self }),
    {
        Self { aperture, ..self }
    }

    pub fn focus(self, distance: i64) -> (r: Self)
        requires
            distance >= 0,
        ensures
            r == (Self { focus_distance: distance, ..self }),
    {
        Self { focus_distance: distance, ..self }
    }

    /// Focuses on the look-at point: the focus distance becomes its distance from
    /// the camera.
    pub fn focus_to_look_at(self) -> (r: Self)
        requires
            self.look_from.within(FRAME as int),
            self.look_at.within(FRAME as int),
        ensures
            r == (Self {
                focus_distance: self.look_at.sub_spec(self.look_from).length_spec() as i64,
                ..self
            }),
    {
        let distance = self.look_at.sub(&self.look_from).length();
        self.focus(distance)
    }

    pub fn shutter_speed(self, duration: i64) -> (r: Self)
        ensures
            r == (Self { shutter_speed: duration, ..self }),
    {
        Self { shutter_speed: duration, ..self }
    }

    /// The camera for this configuration; see `camera_spec` for when there is none.
    pub fn build(self) -> (r: Option<Camera>)
        ensures
            r == self.camera_spec(),
            r matches Some(c) ==> c.wf(),
    {
        let r = Camera::new(&self);
        proof {
            if r is Some {
                self.lemma_built_wf();
            }
        }
        r
    }

    proof fn lemma_built_wf(self)
        requires
            self.camera_spec() is Some,
        ensures
            self.camera_spec()->0.wf(),
    {
        let diff = self.look_at.sub_spec(self.look_from);
        let w = diff.unit_spec();
        let c = w.cross_spec(self.vup);
        let hu = c.unit_spec();
        let vr = hu.cross_spec(w);
        let vu = vr.unit_spec();
        diff.lemma_unit_components();
        lemma_cross_within(w, self.vup, FRAME as int);
        c.lemma_unit_components();
        lemma_cross_within(hu, w, ONE as int);
        vr.lemma_unit_components();
        let vh = 2 * tan_half_spec(self.fov);
        let vw = fx_mul(vh, self.aspect_ratio as int);
        let kh = fx_mul(self.focus_distance as int, vw);
        let kv = fx_mul(self.focus_distance as int, vh);
        lemma_scale_unit_within(hu, kh, FRAME as int);
        lemma_scale_unit_within(vu, kv, FRAME as int);
        lemma_scale_unit_within(w, self.focus_distance as int, FRAME as int);
        lemma_halve_within(hu.scale_spec(kh), FRAME as int);
        lemma_halve_within(vu.scale_spec(kv), FRAME as int);
    }
}

impl Default for CameraBuilder {
    /// Looking from the origin down `-z` with `y` up, 90 degrees of view, a 16:9 frame,
    /// a pinhole lens focused at distance 1 and an instant shutter.
    fn default() -> (r: Self)
        ensures
            r == (CameraBuilder {
                look_from: Vec3 { x: 0, y: 0, z: 0 },
                look_at: Vec3 { x: 0, y: 0, z: -65536i64 },
                vup: Vec3 { x: 0, y: 65536, z: 0 },
                fov: 90,
                aspect_ratio: 116508,
                aperture: 0,
                focus_distance: ONE,
                shutter_speed: 0,
            }),
    {
        CameraBuilder {
            look_from: Vec3::new(0, 0, 0),
            look_at: Vec3::new(0, 0, -ONE),
            vup: Vec3::new(0, ONE, 0),
            fov: 90,
            aspect_ratio: 116508,
            aperture: 0,
            focus_distance: ONE,
            shutter_speed: 0,
        }
    }
}

} // verus!
