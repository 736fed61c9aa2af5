use raytrace::fixed::ONE;
use raytrace::vec3::Vec3;

fn v(x: i64, y: i64, z: i64) -> Vec3 {
    Vec3::new(x, y, z)
}

#[test]
fn add_sub_neg() {
    let a = v(ONE, 2 * ONE, -3 * ONE);
    let b = v(4 * ONE, -ONE, ONE / 2);
    assert_eq!(a.add(&b), v(5 * ONE, ONE, -5 * ONE / 2));
    assert_eq!(a.sub(&b), v(-3 * ONE, 3 * ONE, -7 * ONE / 2));
    assert_eq!(a.neg(), v(-ONE, -2 * ONE, 3 * ONE));
}

#[test]
fn reverse_in_place() {
    let mut a = v(1, -2, 3);
    a.reverse();
    assert_eq!(a, v(-1, 2, -3));
}

#[test]
fn hadamard_and_scale() {
    let a = v(2 * ONE, ONE / 2, -ONE);
    let b = v(ONE / 4, 4 * ONE, 3 * ONE);
    assert_eq!(a.hadamard(&b), v(ONE / 2, 2 * ONE, -3 * ONE));
    assert_eq!(a.scale(ONE / 2), v(ONE, ONE / 4, -ONE / 2));
}

#[test]
fn scale_rounds_toward_zero() {
    // 3 * 0.5 units is 1.5 units, and -1.5 units
    assert_eq!(v(3, -3, 0).scale(ONE / 2), v(1, -1, 0));
}

#[test]
fn div_by_scalar() {
    let a = v(3 * ONE, -ONE, 0);
    assert_eq!(a.div(2 * ONE), v(3 * ONE / 2, -ONE / 2, 0));
    assert_eq!(a.div(-ONE), v(-3 * ONE, ONE, 0));
}

#[test]
fn dot_product() {
    let a = v(ONE, 2 * ONE, 3 * ONE);
    let b = v(4 * ONE, -5 * ONE, 6 * ONE);
    assert_eq!(a.dot(&b), 12 * ONE);
    assert_eq!(a.dot(&b), b.dot(&a));
}

#[test]
fn cross_right_handed() {
    let x = v(ONE, 0, 0);
    let y = v(0, ONE, 0);
    assert_eq!(x.cross(&y), v(0, 0, ONE));
    assert_eq!(y.cross(&x), v(0, 0, -ONE));
}

#[test]
fn cross_antisymmetric_on_values() {
    let pairs = [
        (v(3, -7, 11), v(-13, 17, 19)),
        (v(ONE + 5, 2 * ONE - 3, -ONE / 3), v(-ONE / 7, 5 * ONE, ONE / 9)),
        (v(123456, -654321, 99), v(-1, 77777, -31415)),
    ];
    for (a, b) in pairs.iter() {
        assert_eq!(a.cross(b), b.cross(a).neg());
        assert_eq!(a.dot(b), b.dot(a));
    }
}

#[test]
fn length_of_three_four_five() {
    let a = v(3 * ONE, 4 * ONE, 0);
    assert_eq!(a.length(), 5 * ONE);
    assert_eq!(a.length_squared(), 25 * ONE);
}

#[test]
fn unit_of_three_four_five() {
    let u = v(3 * ONE, 4 * ONE, 0).unit();
    assert_eq!(u, v(39321, 52428, 0));
}

#[test]
fn unit_has_length_near_one_and_is_parallel() {
    let samples = [v(3, 4, 12), v(-ONE, 2 * ONE, ONE / 3), v(1, 0, 0), v(100000, -7, 42)];
    for a in samples.iter() {
        let u = a.unit();
        let len = u.length();
        assert!((len - ONE).abs() <= 4, "length {}", len);
        let c = u.cross(a);
        let tol = a.length() / ONE + 2;
        assert!(c.x.abs() <= tol && c.y.abs() <= tol && c.z.abs() <= tol);
    }
}

#[test]
fn index_by_axis() {
    let a = v(7, 8, 9);
    assert_eq!(a.index(0), 7);
    assert_eq!(a.index(1), 8);
    assert_eq!(a.index(2), 9);
}

#[test]
fn in_place_operators() {
    let mut a = v(ONE, 2 * ONE, 3 * ONE);
    a.add_assign(&v(ONE, ONE, ONE));
    assert_eq!(a, v(2 * ONE, 3 * ONE, 4 * ONE));
    a.sub_assign(&v(0, ONE, 2 * ONE));
    assert_eq!(a, v(2 * ONE, 2 * ONE, 2 * ONE));
    a.mul_assign(&v(ONE / 2, 2 * ONE, 0));
    assert_eq!(a, v(ONE, 4 * ONE, 0));
    a.div_assign(4 * ONE);
    assert_eq!(a, v(ONE / 4, ONE, 0));
}

#[test]
fn unit_of_short_vectors() {
    for a in [v(1, 1, 0), v(1, 0, 0), v(-1, 2, -3), v(5, 0, -7), v(1, 1, 1)] {
        let u = a.unit();
        let l2 = u.length_squared_raw();
        let lo = ((ONE - 2) as i128) * ((ONE - 2) as i128);
        let hi = ((ONE + 1) as i128) * ((ONE + 1) as i128);
        assert!(lo <= l2 && l2 < hi, "{:?} -> {:?}", a, u);
        assert!(u.dot_sign(&a) > 0);
    }
    assert_eq!(v(1, 1, 0).unit(), v(46341, 46341, 0));
    assert_eq!(v(0, 0, -1).unit(), v(0, 0, -ONE));
}
