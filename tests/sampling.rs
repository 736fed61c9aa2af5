use raytrace::fixed::ONE;
use raytrace::random::Rng;
use raytrace::vec3::Vec3;

const TRIALS: usize = 4000;

#[test]
fn range_is_half_open() {
    let mut rng = Rng::new(1);
    for _ in 0..TRIALS {
        let r = rng.range(-3, 4);
        assert!(-3 <= r && r < 4);
    }
    for _ in 0..100 {
        assert_eq!(rng.range(5, 6), 5);
    }
}

#[test]
fn unit_box_coordinates() {
    let mut rng = Rng::new(2);
    for _ in 0..TRIALS {
        let p = Vec3::random_in_unit_box(&mut rng);
        for c in [p.x, p.y, p.z] {
            assert!(-ONE <= c && c < ONE);
        }
    }
}

#[test]
fn random_range_coordinates() {
    let mut rng = Rng::new(22);
    for _ in 0..TRIALS {
        let p = Vec3::random_range(&mut rng, 10, 20);
        for c in [p.x, p.y, p.z] {
            assert!((10..20).contains(&c));
        }
    }
}

#[test]
fn unit_sphere_inside_and_centered() {
    let mut rng = Rng::new(3);
    let (mut sx, mut sy, mut sz, mut s2) = (0f64, 0f64, 0f64, 0f64);
    for _ in 0..TRIALS {
        let p = Vec3::random_in_unit_sphere(&mut rng);
        assert!(p.length_squared_raw() < (ONE as i128) * (ONE as i128));
        let (x, y, z) = (p.x as f64 / ONE as f64, p.y as f64 / ONE as f64, p.z as f64 / ONE as f64);
        sx += x;
        sy += y;
        sz += z;
        s2 += x * x + y * y + z * z;
    }
    let n = TRIALS as f64;
    assert!((sx / n).abs() < 0.05 && (sy / n).abs() < 0.05 && (sz / n).abs() < 0.05);
    // the mean squared radius of the uniform ball is 3/5
    assert!((s2 / n - 0.6).abs() < 0.05);
}

#[test]
fn unit_hemisphere_faces_normal() {
    let mut rng = Rng::new(4);
    let normal = Vec3::new(ONE, -ONE, ONE / 2);
    for _ in 0..TRIALS {
        let p = Vec3::random_in_unit_hemisphere(&mut rng, &normal);
        assert!(p.dot_sign(&normal) >= 0);
        assert!(p.length_squared_raw() < (ONE as i128) * (ONE as i128));
    }
}

#[test]
fn unit_vector_has_length_one() {
    let mut rng = Rng::new(5);
    for _ in 0..TRIALS {
        let p = Vec3::random_unit(&mut rng);
        let len = p.length();
        assert!((len - ONE).abs() <= ONE / 200, "length {}", len);
        assert!(p.length_squared_raw() <= ((ONE + 2) as i128) * ((ONE + 2) as i128));
    }
}

#[test]
fn unit_vector_oriented_faces_normal() {
    let mut rng = Rng::new(6);
    let normal = Vec3::new(0, 0, -ONE);
    for _ in 0..TRIALS {
        let p = Vec3::random_unit_dir(&mut rng, &normal);
        assert!(p.dot_sign(&normal) >= 0);
    }
}

#[test]
fn unit_disk_in_plane() {
    let mut rng = Rng::new(7);
    for _ in 0..TRIALS {
        let p = Vec3::random_unit_disk(&mut rng);
        assert_eq!(p.z, 0);
        assert!(p.length_squared_raw() < (ONE as i128) * (ONE as i128));
    }
}

#[test]
fn normal_mean_and_spread() {
    let mut rng = Rng::new(8);
    let (mut s, mut s2) = (0f64, 0f64);
    for _ in 0..TRIALS {
        let r = rng.normal();
        assert!(-6 * ONE <= r && r < 6 * ONE);
        let x = r as f64 / ONE as f64;
        s += x;
        s2 += x * x;
    }
    let n = TRIALS as f64;
    assert!((s / n).abs() < 0.1);
    assert!((s2 / n - 1.0).abs() < 0.15);
}

#[test]
fn orient_keeps_ties_and_flips_away() {
    let normal = Vec3::new(0, 0, ONE);
    let tie = Vec3::new(ONE / 2, -ONE / 3, 0);
    assert_eq!(Vec3::orient(tie, &normal), tie);
    let away = Vec3::new(1, 2, -3);
    assert_eq!(Vec3::orient(away, &normal), Vec3::new(-1, -2, 3));
    let toward = Vec3::new(1, 2, 3);
    assert_eq!(Vec3::orient(toward, &normal), toward);
}

#[test]
fn unit_vector_never_short() {
    let mut rng = Rng::new(55);
    let lo = ((ONE - 2) as i128) * ((ONE - 2) as i128);
    for _ in 0..TRIALS {
        let p = Vec3::random_unit(&mut rng);
        assert!(p.length_squared_raw() >= lo);
    }
}
