//! Per-pixel sampling, averaging and gamma encoding, and the render settings.
use vstd::prelude::*;
use crate::camera::Camera;
use crate::fixed::{is_root, isqrt, isqrt_spec, tdiv, tdiv_exec, COORD, ONE};
use crate::integrator::{black, color_spec, ray_color, World};
use crate::random::Rng;
use crate::ray::Ray;
use crate::vec3::Vec3;

verus! {

/// A displayable color: fixed-point channels, not yet clamped to `[0, 1]`.
#[derive(Clone, Copy, Debug, PartialEq, Eq, Structural)]
pub struct Color {
    pub r: i64,
    pub g: i64,
    pub b: i64,
}

/// The most samples per pixel whose sum stays within the vector range.
pub const MAX_SAMPLES: usize = 32768;

/// One channel of a pixel: the sum divided by the sample count, then square-rooted
/// when gamma encoding is asked for.
pub open spec fn channel_spec(sum: int, count: int, gamma: bool) -> int {
    let avg = tdiv(sum, count);
    if gamma {
        isqrt_spec((avg * ONE) as nat) as int
    } else {
        avg
    }
}

/// A scene in which every ray that reaches a surface is absorbed and every ray
/// reaches one.
pub open spec fn absorbs_all<W: World>(world: &W) -> bool {
    forall|r: Ray, t: i64, s: u64| (#[trigger] world.bounce_spec(r, t, s)).0 is Absorbed
}

/// In a scene that absorbs every ray, every ray's color is black.
pub proof fn lemma_absorbing_is_black<W: World>(world: &W, ray: Ray, seed: u64, depth: nat)
    requires
        absorbs_all(world),
    ensures
        color_spec(world, ray, seed, depth).0 == black(),
{
    if depth > 0 {
        assert(world.bounce_spec(ray, crate::integrator::HIT_MIN, seed).0 is Absorbed);
    }
}

impl Color {
    pub open spec fn is_black(self) -> bool {
        self.r == 0 && self.g == 0 && self.b == 0
    }

    pub fn new(r: i64, g: i64, b: i64) -> (c: Color)
        ensures
            c.r == r && c.g == g && c.b == b,
    {
        Color { r, g, b }
    }
}

impl Vec3 {
    /// The color of an accumulated sum of `sample_count` samples.
    pub fn into_color(self, sample_count: usize, gamma: bool) -> (r: Color)
        requires
            self.bounded(),
            0 < sample_count,
            gamma ==> self.x >= 0 && self.y >= 0 && self.z >= 0,
        ensures
            r.r == channel_spec(self.x as int, sample_count as int, gamma),
            r.g == channel_spec(self.y as int, sample_count as int, gamma),
            r.b == channel_spec(self.z as int, sample_count as int, gamma),
    {
        Color {
            r: channel(self.x, sample_count, gamma),
            g: channel(self.y, sample_count, gamma),
            b: channel(self.z, sample_count, gamma),
        }
    }
}

fn channel(sum: i64, count: usize, gamma: bool) -> (r: i64)
    requires
        -COORD <= sum <= COORD,
        0 < count,
        gamma ==> sum >= 0,
    ensures
        r == channel_spec(sum as int, count as int, gamma),
{
    let avg: i128 = tdiv_exec(sum as i128, count as i128);
    proof {
        crate::fixed::lemma_tdiv_bounds(sum as int, count as int, COORD as int);
        vstd::arithmetic::div_mod::lemma_div_is_ordered_by_denominator(COORD as int, 1, count as int);
    }
    if gamma {
        assert(0 <= avg * ONE <= COORD * ONE) by (nonlinear_arith)
            requires
                0 <= avg <= COORD,
        ;
        let root = isqrt((avg * ONE as i128) as u128);
        assert(root <= 16777216) by (nonlinear_arith)
            requires
                root * root <= COORD * ONE,
                root >= 0,
        ;
        root as i64
    } else {
        avg as i64
    }
}

/// The camera and scene of a picture, with its recursion depth, samples per pixel
/// and height in pixels.
pub struct TakePhotoSettings<'c, 'w, W: World> {
    pub camera: &'c Camera,
    pub world: &'w W,
    pub depth: usize,
    pub samples: usize,
    pub picture_height: usize,
}

impl Camera {
    /// Settings for a picture of `world`, with the defaults of `TakePhotoSettings::new`.
    pub fn take_photo<'i, 'w, W: World>(&'i self, world: &'w W) -> (r: TakePhotoSettings<
        'i,
        'w,
        W,
    >)
        ensures
            r.camera == self && r.world == world,
            r.depth == 8 && r.samples == 50 && r.picture_height == 108,
    {
        TakePhotoSettings::new(self, world)
    }
}

/// `u` is the image-plane coordinate of a point of cell `i` out of `n`:
/// `u = floor((i + t) / n)` in fixed point, for some `t` in `[0, 1)`.
pub open spec fn in_cell(u: int, i: int, n: int) -> bool {
    &&& 0 <= u < ONE
    &&& u * n < (i + 1) * ONE
    &&& i * ONE < (u + 1) * n
}

/// The channelwise sum of a sequence of colors.
pub open spec fn sum_spec(cs: Seq<Vec3>) -> (int, int, int)
    decreases cs.len(),
{
    if cs.len() == 0 {
        (0, 0, 0)
    } else {
        let (a, b, c) = sum_spec(cs.drop_last());
        (a + cs.last().x, b + cs.last().y, c + cs.last().z)
    }
}

/// The gamma-encoded mean of the sampled colors `cs`.
pub open spec fn mean_color(cs: Seq<Vec3>) -> Color {
    let (a, b, c) = sum_spec(cs);
    Color {
        r: channel_spec(a, cs.len() as int, true) as i64,
        g: channel_spec(b, cs.len() as int, true) as i64,
        b: channel_spec(c, cs.len() as int, true) as i64,
    }
}

impl<'c, 'w, W: World> TakePhotoSettings<'c, 'w, W> {
    /// `c` is the color of the ray through `(u, v)`, for lens and shutter samples
    /// `disk` and `n` and generator state `seed`, with `(u, v)` in pixel `(i, j)`.
    pub open spec fn sample_from(
        self,
        i: int,
        j: int,
        width: int,
        height: int,
        u: int,
        v: int,
        disk: Vec3,
        n: int,
        seed: u64,
        c: Vec3,
    ) -> bool {
        &&& in_cell(u, i, width)
        &&& in_cell(v, j, height)
        &&& Camera::drawn(disk, n)
        &&& c == color_spec(
            self.world,
            self.camera.ray_from_spec(u, v, disk, n),
            seed,
            self.depth as nat,
        ).0
    }

    /// `c` is a possible sample of pixel `(i, j)`.
    pub open spec fn is_sample(self, i: int, j: int, width: int, height: int, c: Vec3) -> bool {
        exists|u: int, v: int, disk: Vec3, n: int, seed: u64|
            #[trigger] self.sample_from(i, j, width, height, u, v, disk, n, seed, c)
    }

    /// `c` is the gamma-encoded mean of the samples `cs` of pixel `(i, j)`.
    pub open spec fn pixel_from(
        self,
        i: int,
        j: int,
        width: int,
        height: int,
        cs: Seq<Vec3>,
        c: Color,
    ) -> bool {
        &&& cs.len() == self.samples
        &&& forall|k: int| 0 <= k < cs.len() ==> self.is_sample(i, j, width, height, #[trigger] cs[k])
        &&& c == mean_color(cs)
    }

    /// `c` is a possible color of pixel `(i, j)`: the mean of `samples` samples.
    pub open spec fn is_pixel(self, i: int, j: int, width: int, height: int, c: Color) -> bool {
        exists|cs: Seq<Vec3>| #[trigger] self.pixel_from(i, j, width, height, cs, c)
    }

    /// The pixel at position `p` of the picture laid out row by row from the top.
    pub open spec fn is_pixel_at(self, p: int, width: int, height: int, c: Color) -> bool {
        self.is_pixel(p % width, height - 1 - p / width, width, height, c)
    }

    /// Depth 8, 50 samples per pixel, 108 pixels high.
    pub fn new(camera: &'c Camera, world: &'w W) -> (r: Self)
        ensures
            r.camera == camera && r.world == world,
            r.depth == 8 && r.samples == 50 && r.picture_height == 108,
    {
        TakePhotoSettings { camera, world, depth: 8, samples: 50, picture_height: 108 }
    }

    pub fn depth(self, depth: usize) -> (r: Self)
        ensures
            r.camera == self.camera && r.world == self.world,
            r.depth == depth && r.samples == self.samples,
            r.picture_height == self.picture_height,
    {
        TakePhotoSettings { depth, ..self }
    }

    pub fn samples(self, samples: usize) -> (r: Self)
        ensures
            r.camera == self.camera && r.world == self.world,
            r.depth == self.depth && r.samples == samples,
            r.picture_height == self.picture_height,
    {
        TakePhotoSettings { samples, ..self }
    }

    pub fn height(self, height: usize) -> (r: Self)
        ensures
            r.camera == self.camera && r.world == self.world,
            r.depth == self.depth && r.samples == self.samples,
            r.picture_height == height,
    {
        TakePhotoSettings { picture_height: height, ..self }
    }

    pub open spec fn width_spec(self) -> int {
        (self.picture_height * self.camera.aspect_ratio + ONE / 2) / (ONE as int)
    }

    /// The picture's width: its height times the aspect ratio, rounded to nearest.
    pub fn width(&self) -> (r: usize)
        requires
            self.camera.wf(),
            self.width_spec() <= usize::MAX,
        ensures
            r == self.width_spec(),
    {
        let h = self.picture_height as u128;
        let a = self.camera.aspect_ratio as u128;
        assert(h * a <= 18446744073709551615 * 2147483648) by (nonlinear_arith)
            requires
                h <= 18446744073709551615,
                a <= 2147483648,
        ;
        ((h * a + 32768) / 65536) as usize
    }

    /// The color of pixel `(i, j)` of a `width` by `height` picture, `j` counted from
    /// the bottom row: the gamma-encoded mean of `samples` independent samples, each
    /// through a point jittered within the pixel.
    pub fn pixel(&self, i: usize, j: usize, width: usize, height: usize, rng: &mut Rng) -> (r:
        Color)
        requires
            self.camera.wf(),
            0 < self.samples <= MAX_SAMPLES,
            i < width,
            j < height,
        ensures
            self.is_pixel(i as int, j as int, width as int, height as int, r),
            0 <= r.r <= ONE && 0 <= r.g <= ONE && 0 <= r.b <= ONE,
            absorbs_all(self.world) ==> r.is_black(),
    {
        let mut sum = Vec3::new(0, 0, 0);
        let mut cs: Ghost<Seq<Vec3>> = Ghost(Seq::empty());
        let mut k: usize = 0;
        while k < self.samples
            invariant
                self.camera.wf(),
                k <= self.samples <= MAX_SAMPLES,
                i < width,
                j < height,
                0 <= sum.x <= k * ONE && 0 <= sum.y <= k * ONE && 0 <= sum.z <= k * ONE,
                absorbs_all(self.world) ==> sum.is_zero(),
                cs@.len() == k,
                forall|q: int|
                    0 <= q < cs@.len() ==> self.is_sample(
                        i as int,
                        j as int,
                        width as int,
                        height as int,
                        #[trigger] cs@[q],
                    ),
                sum_spec(cs@) == (sum.x as int, sum.y as int, sum.z as int),
            decreases self.samples - k,
        {
            let u = jitter(i, width, rng);
            let v = jitter(j, height, rng);
            let ray = self.camera.ray(u, v, rng);
            let seed = Ghost(rng.seed());
            let c = ray_color(&ray, self.world, self.depth, rng);
            proof {
                if absorbs_all(self.world) {
                    lemma_absorbing_is_black(self.world, ray, seed@, self.depth as nat);
                }
                let (d, nn) = choose|d: Vec3, nn: int|
                    Camera::drawn(d, nn) && ray == self.camera.ray_from_spec(
                        u as int,
                        v as int,
                        d,
                        nn,
                    );
                assert(self.sample_from(
                    i as int,
                    j as int,
                    width as int,
                    height as int,
                    u as int,
                    v as int,
                    d,
                    nn,
                    seed@,
                    c,
                ));
                assert(cs@.push(c).drop_last() =~= cs@);
            }
            sum = sum.add(&c);
            proof {
                cs@ = cs@.push(c);
            }
            k = k + 1;
        }
        let r = sum.into_color(self.samples, true);
        proof {
            lemma_channel_range(sum.x as int, self.samples as int);
            lemma_channel_range(sum.y as int, self.samples as int);
            lemma_channel_range(sum.z as int, self.samples as int);
            if absorbs_all(self.world) {
                lemma_channel_zero(self.samples as int);
            }
            assert(self.pixel_from(i as int, j as int, width as int, height as int, cs@, r));
        }
        r
    }

    /// Every pixel of the picture, row by row from the top, each row left to right.
    pub fn render(&self, rng: &mut Rng) -> (r: Vec<Color>)
        requires
            self.camera.wf(),
            0 < self.samples <= MAX_SAMPLES,
            self.width_spec() * self.picture_height <= usize::MAX,
        ensures
            r.len() == self.width_spec() * self.picture_height,
            forall|p: int|
                0 <= p < r.len() ==> 0 <= (#[trigger] r[p]).r <= ONE && 0 <= r[p].g <= ONE && 0
                    <= r[p].b <= ONE,
            absorbs_all(self.world) ==> forall|p: int|
                0 <= p < r.len() ==> (#[trigger] r[p]).is_black(),
            forall|p: int|
                0 <= p < r.len() ==> self.is_pixel_at(
                    p,
                    self.width_spec(),
                    self.picture_height as int,
                    #[trigger] r[p],
                ),
    {
        let height = self.picture_height;
        proof {
            if height > 0 {
                assert(self.width_spec() <= self.width_spec() * height) by (nonlinear_arith)
                    requires
                        height >= 1,
                        self.width_spec() >= 0,
                ;
            }
            assert(self.width_spec() >= 0);
        }
        let width = if height == 0 {
            0
        } else {
            self.width()
        };
        let mut out: Vec<Color> = Vec::new();
        let mut row: usize = 0;
        while row < height
            invariant
                self.camera.wf(),
                0 < self.samples <= MAX_SAMPLES,
                height == self.picture_height,
                width == self.width_spec() || height == 0,
                width * height <= usize::MAX,
                row <= height,
                out.len() == row * width,
                forall|p: int|
                    0 <= p < out.len() ==> 0 <= (#[trigger] out[p]).r <= ONE && 0 <= out[p].g
                        <= ONE && 0 <= out[p].b <= ONE,
                absorbs_all(self.world) ==> forall|p: int|
                    0 <= p < out.len() ==> (#[trigger] out[p]).is_black(),
                forall|p: int|
                    0 <= p < out.len() ==> self.is_pixel_at(
                        p,
                        width as int,
                        height as int,
                        #[trigger] out[p],
                    ),
            decreases height - row,
        {
            let j = height - 1 - row;
            let mut i: usize = 0;
            assert((row + 1) * width <= width * height) by (nonlinear_arith)
                requires
                    row < height,
                    width >= 0,
            ;
            while i < width
                invariant
                    self.camera.wf(),
                    0 < self.samples <= MAX_SAMPLES,
                    j < height,
                    i <= width,
                    row < height,
                    (row + 1) * width <= usize::MAX,
                    out.len() == row * width + i,
                    forall|p: int|
                        0 <= p < out.len() ==> 0 <= (#[trigger] out[p]).r <= ONE && 0
                            <= out[p].g <= ONE && 0 <= out[p].b <= ONE,
                    absorbs_all(self.world) ==> forall|p: int|
                        0 <= p < out.len() ==> (#[trigger] out[p]).is_black(),
                    j == height - 1 - row,
                    forall|p: int|
                        0 <= p < out.len() ==> self.is_pixel_at(
                            p,
                            width as int,
                            height as int,
                            #[trigger] out[p],
                        ),
                decreases width - i,
            {
                let c = self.pixel(i, j, width, height, rng);
                proof {
                    let p = row * width + i;
                    vstd::arithmetic::div_mod::lemma_fundamental_div_mod_converse(
                        p as int,
                        width as int,
                        row as int,
                        i as int,
                    );
                    assert(self.is_pixel_at(p as int, width as int, height as int, c));
                }
                out.push(c);
                i = i + 1;
            }
            assert(row * width + width == (row + 1) * width) by (nonlinear_arith);
            row = row + 1;
        }
        proof {
            if height == 0 {
                assert(self.width_spec() * height == 0) by (nonlinear_arith)
                    requires
                        height == 0,
                ;
            } else {
                assert(row * width == self.width_spec() * height) by (nonlinear_arith)
                    requires
                        row == height,
                        width == self.width_spec(),
                ;
            }
        }
        out
    }
}

/// The image-plane coordinate of a random point of cell `i` out of `n`: `(i + t) / n`
/// for `t` uniform in `[0, 1)`.
fn jitter(i: usize, n: usize, rng: &mut Rng) -> (r: i64)
    requires
        i < n,
    ensures
        in_cell(r as int, i as int, n as int),
{
    let t = rng.range(0, ONE);
    let num: u128 = i as u128 * 65536 + t as u128;
    assert(num < n * 65536) by (nonlinear_arith)
        requires
            num == i * 65536 + t,
            t < 65536,
            i < n,
    ;
    assert(num / (n as u128) < 65536) by (nonlinear_arith)
        requires
            num < n * 65536,
            n > 0,
    ;
    let r = num / (n as u128);
    proof {
        vstd::arithmetic::div_mod::lemma_fundamental_div_mod(num as int, n as int);
        assert(r * n <= num < (r + 1) * n) by (nonlinear_arith)
            requires
                num == n * r + (num as int) % (n as int),
                0 <= (num as int) % (n as int) < n,
        ;
    }
    r as i64
}

proof fn lemma_channel_range(sum: int, count: int)
    requires
        0 <= sum <= count * ONE,
        count > 0,
    ensures
        0 <= channel_spec(sum, count, true) <= ONE,
{
    let avg = tdiv(sum, count);
    vstd::arithmetic::div_mod::lemma_div_is_ordered(sum, count * ONE, count);
    vstd::arithmetic::div_mod::lemma_div_multiples_vanish(ONE as int, count);
    assert(count * ONE == ONE * count) by (nonlinear_arith);
    vstd::arithmetic::div_mod::lemma_div_pos_is_pos(sum, count);
    assert(0 <= avg * ONE <= ONE * ONE) by (nonlinear_arith)
        requires
            0 <= avg <= ONE,
    ;
    crate::fixed::lemma_isqrt_spec((avg * ONE) as nat);
    let s = isqrt_spec((avg * ONE) as nat) as int;
    assert(is_root(avg * ONE, s));
    if s > ONE {
        assert(s * s > ONE * ONE) by (nonlinear_arith)
            requires
                s > ONE,
        ;
    }
}

proof fn lemma_channel_zero(count: int)
    requires
        count > 0,
    ensures
        channel_spec(0, count, true) == 0,
{
    assert(isqrt_spec(0) == 0);
}

} // verus!
