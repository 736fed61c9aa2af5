//! The recursive light-transport step and the sky that lights the scene.
use vstd::prelude::*;
use crate::fixed::{fx_mul, lemma_mul_bound, lemma_tdiv_bounds, ONE};
use crate::random::Rng;
use crate::ray::Ray;
use crate::vec3::Vec3;

verus! {

/// The nearest hit distance that counts, about 0.001: nearer hits are the ray's own
/// surface seen again through rounding.
pub const HIT_MIN: i64 = 66;

/// The blue end of the sky gradient: (0.5, 0.7, 1.0).
pub const SKY_R: i64 = 32768;
pub const SKY_G: i64 = 45875;
pub const SKY_B: i64 = 65536;

/// What the scene does with a ray.
#[derive(Clone, Copy, Debug, PartialEq, Eq, Structural)]
pub enum Bounce {
    /// Nothing is hit: the ray sees the sky.
    Miss,
    /// A surface is hit and absorbs the ray.
    Absorbed,
    /// A surface is hit and sends out `ray`, tinted by `attenuation`.
    Scattered { attenuation: Vec3, ray: Ray },
}

impl Bounce {
    pub open spec fn well_formed(self) -> bool {
        match self {
            Bounce::Scattered { attenuation, ray } => attenuation.is_color() && ray.bounded(),
            _ => true,
        }
    }
}

/// The scene: geometry and materials, which answer for the nearest hit of a ray
/// beyond a distance and for the material's response there.
pub trait World {
    /// What `bounce` returns, and the generator state it leaves, for a ray, the
    /// nearest distance that counts and the generator state it starts from.
    spec fn bounce_spec(&self, ray: Ray, t_min: i64, seed: u64) -> (Bounce, u64);

    fn bounce(&self, ray: &Ray, t_min: i64, rng: &mut Rng) -> (r: Bounce)
        requires
            ray.bounded(),
        ensures
            (r, final(rng).seed()) == self.bounce_spec(*ray, t_min, old(rng).seed()),
            r.well_formed(),
    ;
}

/// A scene with nothing in it.
pub struct EmptyWorld;

impl World for EmptyWorld {
    open spec fn bounce_spec(&self, ray: Ray, t_min: i64, seed: u64) -> (Bounce, u64) {
        (Bounce::Miss, seed)
    }

    fn bounce(&self, ray: &Ray, t_min: i64, rng: &mut Rng) -> (r: Bounce) {
        Bounce::Miss
    }
}

impl Vec3 {
    /// Every channel lies in `[0, 1]`.
    pub open spec fn is_color(self) -> bool {
        &&& 0 <= self.x <= ONE
        &&& 0 <= self.y <= ONE
        &&& 0 <= self.z <= ONE
    }

    pub open spec fn hadamard_spec(self, rhs: Vec3) -> Vec3 {
        Vec3 {
            x: fx_mul(self.x as int, rhs.x as int) as i64,
            y: fx_mul(self.y as int, rhs.y as int) as i64,
            z: fx_mul(self.z as int, rhs.z as int) as i64,
        }
    }
}

pub open spec fn black() -> Vec3 {
    Vec3 { x: 0, y: 0, z: 0 }
}

/// Height of a direction on the sky gradient: `(unit(d).y + 1) / 2`, with a zero
/// direction at the middle.
pub open spec fn sky_height(d: Vec3) -> int {
    if d.is_zero() {
        ONE / 2
    } else {
        (d.unit_spec().y + ONE) / 2
    }
}

/// `(1 - t) * a + t * b` on one channel.
pub open spec fn blend(a: int, b: int, t: int) -> int {
    fx_mul(ONE - t, a) + fx_mul(t, b)
}

/// The sky seen along `ray`: white at the bottom blending to light blue at the top.
pub open spec fn background_spec(ray: Ray) -> Vec3 {
    let t = sky_height(ray.direction);
    Vec3 {
        x: blend(ONE as int, SKY_R as int, t) as i64,
        y: blend(ONE as int, SKY_G as int, t) as i64,
        z: blend(ONE as int, SKY_B as int, t) as i64,
    }
}

/// The color seen along `ray` with `depth` bounces left, and the generator state
/// that is left.
pub open spec fn color_spec<W: World>(world: &W, ray: Ray, seed: u64, depth: nat) -> (Vec3, u64)
    decreases depth,
{
    if depth == 0 {
        (black(), seed)
    } else {
        let (b, s1) = world.bounce_spec(ray, HIT_MIN, seed);
        match b {
            Bounce::Miss => (background_spec(ray), s1),
            Bounce::Absorbed => (black(), s1),
            Bounce::Scattered { attenuation, ray: out } => {
                let (c, s2) = color_spec(world, out, s1, (depth - 1) as nat);
                (attenuation.hadamard_spec(c), s2)
            },
        }
    }
}

proof fn lemma_div_add(a: int, b: int, d: int)
    requires
        a >= 0,
        b >= 0,
        d > 0,
    ensures
        a / d + b / d <= (a + b) / d,
{
    vstd::arithmetic::div_mod::lemma_fundamental_div_mod(a, d);
    vstd::arithmetic::div_mod::lemma_fundamental_div_mod(b, d);
    let k = a / d + b / d;
    assert(d * k <= a + b) by (nonlinear_arith)
        requires
            a == d * (a / d) + a % d,
            b == d * (b / d) + b % d,
            a % d >= 0,
            b % d >= 0,
            k == a / d + b / d,
    ;
    vstd::arithmetic::div_mod::lemma_div_is_ordered(d * k, a + b, d);
    vstd::arithmetic::div_mod::lemma_div_multiples_vanish(k, d);
}

proof fn lemma_blend(a: int, b: int, t: int)
    requires
        0 <= a <= ONE,
        0 <= b <= ONE,
        0 <= t <= ONE,
    ensures
        0 <= blend(a, b, t) <= ONE,
{
    let s = ONE - t;
    lemma_mul_bound(s, a, ONE as int, ONE as int);
    lemma_mul_bound(t, b, ONE as int, ONE as int);
    assert(0 <= s * a && 0 <= t * b) by (nonlinear_arith)
        requires
            0 <= s && 0 <= a && 0 <= t && 0 <= b,
    ;
    assert(s * a + t * b <= ONE * ONE) by (nonlinear_arith)
        requires
            s == ONE - t,
            0 <= t <= ONE,
            0 <= a <= ONE,
            0 <= b <= ONE,
    ;
    vstd::arithmetic::div_mod::lemma_div_is_ordered(s * a, s * a + t * b, ONE as int);
    vstd::arithmetic::div_mod::lemma_div_is_ordered(s * a + t * b, ONE * ONE, ONE as int);
    vstd::arithmetic::div_mod::lemma_div_by_multiple(ONE as int, ONE as int);
    lemma_div_add(s * a, t * b, ONE as int);
    lemma_tdiv_bounds(s * a, ONE as int, ONE * ONE);
    lemma_tdiv_bounds(t * b, ONE as int, ONE * ONE);
}

pub proof fn lemma_background_is_color(ray: Ray)
    requires
        ray.bounded(),
    ensures
        background_spec(ray).is_color(),
{
    let d = ray.direction;
    if !d.is_zero() {
        d.lemma_unit_components();
    }
    let t = sky_height(d);
    assert(0 <= t <= ONE);
    lemma_blend(ONE as int, SKY_R as int, t);
    lemma_blend(ONE as int, SKY_G as int, t);
    lemma_blend(ONE as int, SKY_B as int, t);
}

proof fn lemma_fx_mul_color(a: int, b: int)
    requires
        0 <= a <= ONE,
        0 <= b <= ONE,
    ensures
        0 <= fx_mul(a, b) <= ONE,
{
    lemma_mul_bound(a, b, ONE as int, ONE as int);
    assert(a * b >= 0) by (nonlinear_arith)
        requires
            0 <= a && 0 <= b,
    ;
    lemma_tdiv_bounds(a * b, ONE as int, ONE * ONE);
    vstd::arithmetic::div_mod::lemma_div_by_multiple(ONE as int, ONE as int);
}

/// The product of two colors is a color.
pub proof fn lemma_hadamard_color(a: Vec3, b: Vec3)
    requires
        a.is_color(),
        b.is_color(),
    ensures
        a.hadamard_spec(b).is_color(),
{
    lemma_fx_mul_color(a.x as int, b.x as int);
    lemma_fx_mul_color(a.y as int, b.y as int);
    lemma_fx_mul_color(a.z as int, b.z as int);
}

/// The sky seen along `ray`.
pub fn background(ray: &Ray) -> (r: Vec3)
    requires
        ray.bounded(),
    ensures
        r == background_spec(*ray),
        r.is_color(),
{
    let d = ray.direction;
    let t: i64 = if d.x == 0 && d.y == 0 && d.z == 0 {
        ONE / 2
    } else {
        let unit = d.unit();
        (unit.y + ONE) / 2
    };
    proof {
        lemma_background_is_color(*ray);
    }
    let white = Vec3::new(ONE, ONE, ONE);
    let blue = Vec3::new(SKY_R, SKY_G, SKY_B);
    let a = white.scale(ONE - t);
    let b = blue.scale(t);
    a.add(&b)
}

/// The color seen along `ray`, following at most `depth` bounces: black once the
/// bounces are spent or when a surface absorbs the ray, the sky when nothing is hit,
/// and otherwise the scattered ray's color tinted by the surface.
pub fn ray_color<W: World>(ray: &Ray, world: &W, depth: usize, rng: &mut Rng) -> (r: Vec3)
    requires
        ray.bounded(),
    ensures
        (r, final(rng).seed()) == color_spec(world, *ray, old(rng).seed(), depth as nat),
        r.is_color(),
        depth == 0 ==> r == black(),
    decreases depth,
{
    if depth == 0 {
        return Vec3::new(0, 0, 0);
    }
    let b = world.bounce(ray, HIT_MIN, rng);
    match b {
        Bounce::Miss => background(ray),
        Bounce::Absorbed => Vec3::new(0, 0, 0),
        Bounce::Scattered { attenuation, ray: out } => {
            let c = ray_color(&out, world, depth - 1, rng);
            proof {
                lemma_hadamard_color(attenuation, c);
            }
            attenuation.hadamard(&c)
        },
    }
}

/// Once the bounces are spent the color is black, whatever the ray or the scene.
pub proof fn lemma_no_depth_is_black<W: World>(world: &W, ray: Ray, seed: u64)
    ensures
        color_spec(world, ray, seed, 0).0 == black(),
{
}

/// In a scene that nothing ever hits, the color of a ray is the sky along it.
pub proof fn lemma_miss_gives_background<W: World>(world: &W, ray: Ray, seed: u64, depth: nat)
    requires
        depth > 0,
        forall|r: Ray, t: i64, s: u64| (#[trigger] world.bounce_spec(r, t, s)).0 is Miss,
    ensures
        color_spec(world, ray, seed, depth).0 == background_spec(ray),
{
    assert(world.bounce_spec(ray, HIT_MIN, seed).0 is Miss);
}

/// The sky is a function of the ray alone: two evaluations agree.
pub proof fn lemma_background_deterministic(a: Ray, b: Ray)
    requires
        a == b,
    ensures
        background_spec(a) == background_spec(b),
{
}

} // verus!
