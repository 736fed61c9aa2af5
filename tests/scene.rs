use raytrace::camera::{Camera, CameraBuilder};
use raytrace::fixed::ONE;
use raytrace::integrator::{background, ray_color, Bounce, EmptyWorld, World};
use raytrace::random::Rng;
use raytrace::ray::Ray;
use raytrace::render::{Color, TakePhotoSettings};
use raytrace::vec3::Vec3;

/// Every ray hits a surface that absorbs it.
struct Dark;

impl World for Dark {
    fn bounce_spec(&self, _ray: Ray, _t_min: i64, seed: u64) -> (Bounce, u64) {
        (Bounce::Absorbed, seed)
    }

    fn bounce(&self, _ray: &Ray, _t_min: i64, _rng: &mut Rng) -> Bounce {
        Bounce::Absorbed
    }
}

/// Every ray bounces once, straight up, dimmed by half; the bounced ray sees the sky.
struct Mirror;

impl World for Mirror {
    fn bounce_spec(&self, ray: Ray, _t_min: i64, seed: u64) -> (Bounce, u64) {
        (mirror(&ray), seed)
    }

    fn bounce(&self, ray: &Ray, _t_min: i64, _rng: &mut Rng) -> Bounce {
        mirror(ray)
    }
}

fn mirror(ray: &Ray) -> Bounce {
    {
        if ray.direction.y > 0 {
            Bounce::Miss
        } else {
            Bounce::Scattered {
                attenuation: Vec3::new(ONE / 2, ONE / 2, ONE / 2),
                ray: Ray::new(ray.origin, Vec3::new(0, ONE, 0), ray.time),
            }
        }
    }
}

fn central_camera() -> Camera {
    CameraBuilder::default().aspect_ratio(2 * ONE).fov(90).build().unwrap()
}

fn ray_along(d: Vec3) -> Ray {
    Ray::new(Vec3::new(0, 0, 0), d, 0)
}

#[test]
fn background_gradient_ends() {
    assert_eq!(background(&ray_along(Vec3::new(0, ONE, 0))), Vec3::new(32768, 45875, 65536));
    assert_eq!(background(&ray_along(Vec3::new(0, -3 * ONE, 0))), Vec3::new(ONE, ONE, ONE));
    assert_eq!(background(&ray_along(Vec3::new(0, 0, -ONE))), Vec3::new(49152, 55705, 65536));
}

#[test]
fn background_zero_direction_is_middle() {
    assert_eq!(background(&ray_along(Vec3::new(0, 0, 0))), Vec3::new(49152, 55705, 65536));
}

#[test]
fn background_twice_is_identical() {
    let r = ray_along(Vec3::new(123, -4567, 8910));
    assert_eq!(background(&r), background(&r));
}

#[test]
fn depth_zero_is_black() {
    let mut rng = Rng::new(9);
    let r = ray_along(Vec3::new(ONE, ONE, 0));
    assert_eq!(ray_color(&r, &EmptyWorld, 0, &mut rng), Vec3::new(0, 0, 0));
    assert_eq!(ray_color(&r, &Mirror, 0, &mut rng), Vec3::new(0, 0, 0));
}

#[test]
fn empty_world_sees_background() {
    let mut rng = Rng::new(10);
    for d in [Vec3::new(ONE, ONE, 0), Vec3::new(-7, 3, ONE), Vec3::new(0, -ONE, 5)] {
        let r = ray_along(d);
        assert_eq!(ray_color(&r, &EmptyWorld, 5, &mut rng), background(&r));
    }
}

#[test]
fn absorbing_world_is_black() {
    let mut rng = Rng::new(11);
    let r = ray_along(Vec3::new(0, 0, -ONE));
    assert_eq!(ray_color(&r, &Dark, 3, &mut rng), Vec3::new(0, 0, 0));
}

#[test]
fn scattered_color_is_tinted() {
    let mut rng = Rng::new(12);
    let r = ray_along(Vec3::new(0, -ONE, 0));
    // half of the sky straight up
    assert_eq!(ray_color(&r, &Mirror, 2, &mut rng), Vec3::new(16384, 22937, 32768));
    // one bounce left: the bounced ray has none
    assert_eq!(ray_color(&r, &Mirror, 1, &mut rng), Vec3::new(0, 0, 0));
}

#[test]
fn default_camera_builds() {
    let b = CameraBuilder::default();
    assert_eq!(b.fov, 90);
    assert_eq!(b.aspect_ratio, 116508);
    let cam = b.build().unwrap();
    assert_eq!(cam.origin, Vec3::new(0, 0, 0));
    assert_eq!(cam.horizontal_unit, Vec3::new(ONE, 0, 0));
    assert_eq!(cam.vertical_unit, Vec3::new(0, ONE, 0));
}

#[test]
fn central_camera_basis() {
    let cam = central_camera();
    assert_eq!(cam.horizontal_full, Vec3::new(4 * ONE, 0, 0));
    assert_eq!(cam.vertical_full, Vec3::new(0, 2 * ONE, 0));
    assert_eq!(cam.lb, Vec3::new(-2 * ONE, -ONE, -ONE));
}

#[test]
fn degenerate_camera_is_refused() {
    let same = CameraBuilder::default().look_at(Vec3::new(0, 0, 0));
    assert!(same.build().is_none());
    let parallel = CameraBuilder::default().vup(Vec3::new(0, 0, ONE));
    assert!(parallel.build().is_none());
}

#[test]
fn focus_to_look_at_sets_distance() {
    let b = CameraBuilder::default().look_at(Vec3::new(3 * ONE, 0, -4 * ONE)).focus_to_look_at();
    assert_eq!(b.focus_distance, 5 * ONE);
}

#[test]
fn pinhole_rays_start_at_origin() {
    let cam = CameraBuilder::default()
        .look_from(Vec3::new(ONE, 2 * ONE, 3 * ONE))
        .shutter_speed(ONE)
        .build()
        .unwrap();
    let mut rng = Rng::new(13);
    for (u, v) in [(0, 0), (ONE, ONE), (ONE / 3, 2 * ONE / 3)] {
        assert_eq!(cam.ray(u, v, &mut rng).origin, cam.origin);
    }
}

#[test]
fn lens_rays_stay_on_lens() {
    let cam = CameraBuilder::default().aperture(2 * ONE).build().unwrap();
    let mut rng = Rng::new(14);
    let mut moved = false;
    for _ in 0..200 {
        let r = cam.ray(ONE / 2, ONE / 2, &mut rng);
        let off = r.origin.sub(&cam.origin);
        assert!(off.length() <= ONE + 2);
        moved |= off.length() > 0;
    }
    assert!(moved);
}

#[test]
fn instant_shutter_gives_time_zero() {
    let cam = CameraBuilder::default().aperture(ONE).build().unwrap();
    let mut rng = Rng::new(15);
    for _ in 0..100 {
        assert_eq!(cam.ray(ONE / 4, ONE / 2, &mut rng).time, 0);
    }
}

#[test]
fn central_pixel_sees_background() {
    let cam = central_camera();
    let mut rng = Rng::new(16);
    let r = cam.ray(ONE / 2, ONE / 2, &mut rng);
    assert_eq!(r.direction, Vec3::new(0, 0, -ONE));
    let c = ray_color(&r, &EmptyWorld, 1, &mut rng);
    assert_eq!(c, background(&r));
    assert_eq!(c, Vec3::new(49152, 55705, 65536));
}

#[test]
fn settings_defaults_and_setters() {
    let cam = central_camera();
    let s = cam.take_photo(&EmptyWorld);
    assert_eq!((s.depth, s.samples, s.picture_height), (8, 50, 108));
    let s = TakePhotoSettings::new(&cam, &Dark).depth(3).samples(7).height(20);
    assert_eq!((s.depth, s.samples, s.picture_height), (3, 7, 20));
    assert_eq!(s.width(), 40);
}

#[test]
fn width_rounds_to_nearest() {
    let cam = CameraBuilder::default().build().unwrap();
    assert_eq!(cam.take_photo(&EmptyWorld).width(), 192);
    assert_eq!(cam.take_photo(&EmptyWorld).height(9).width(), 16);
}

#[test]
fn dark_scene_renders_black() {
    let cam = central_camera();
    for n in [1usize, 3, 8] {
        let s = cam.take_photo(&Dark).samples(n).height(4).depth(2);
        let mut rng = Rng::new(17 + n as u64);
        let px = s.render(&mut rng);
        assert_eq!(px.len(), 32);
        assert!(px.iter().all(|c| *c == Color::new(0, 0, 0)));
    }
}

#[test]
fn sky_render_in_range() {
    let cam = central_camera();
    let s = cam.take_photo(&EmptyWorld).samples(2).height(3);
    let mut rng = Rng::new(30);
    let px = s.render(&mut rng);
    assert_eq!(px.len(), 18);
    for c in px.iter() {
        assert!(c.r > 0 && c.r <= ONE && c.g > 0 && c.g <= ONE && c.b == ONE);
    }
}

#[test]
fn into_color_averages() {
    let sum = Vec3::new(4 * ONE, ONE, 0);
    assert_eq!(sum.into_color(4, false), Color::new(ONE, ONE / 4, 0));
    assert_eq!(sum.into_color(4, true), Color::new(ONE, ONE / 2, 0));
}

#[test]
fn tilted_up_vector_gives_orthonormal_basis() {
    let cam = CameraBuilder::default().vup(Vec3::new(1, 1, 0)).build().unwrap();
    let (h, v) = (cam.horizontal_unit, cam.vertical_unit);
    let one2 = (ONE as i128) * (ONE as i128);
    for w in [h, v] {
        assert!((w.length_squared_raw() - one2).abs() <= 4 * ONE as i128);
    }
    assert!(h.dot(&v).abs() <= 2);
    assert!(h.dot(&Vec3::new(0, 0, -ONE)).abs() <= 2);
}

#[test]
fn ray_from_given_samples() {
    let cam = CameraBuilder::default().aperture(2 * ONE).shutter_speed(ONE / 2).build().unwrap();
    let r = cam.ray_from(ONE / 2, ONE / 2, Vec3::new(ONE / 2, 0, 0), 2 * ONE);
    // lens radius 1, half way out along the horizontal axis
    assert_eq!(r.origin, Vec3::new(ONE / 2, 0, 0));
    assert_eq!(r.time, ONE);
    assert_eq!(r.direction, Vec3::new(-ONE / 2, 0, -ONE));
}

#[test]
fn field_of_view_table() {
    let b = CameraBuilder::default().aspect_ratio(ONE).fov(60);
    let cam = b.build().unwrap();
    // tan(30 degrees) = 0.57735, so the full height is 1.1547
    assert_eq!(cam.vertical_full, Vec3::new(0, 75674, 0));
}
