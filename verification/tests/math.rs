use sketch_kernel::dsc::Quaternion;
use sketch_kernel::dsc::Vector;
use sketch_kernel::num::LENGTH_EPS;
use sketch_kernel::num::SCALE;

fn approx(a: i64, b: i64, tol: i64) -> bool {
    (a - b).abs() <= tol
}

fn vec_approx(v: Vector, x: i64, y: i64, z: i64, tol: i64) -> bool {
    approx(v.x, x, tol) && approx(v.y, y, tol) && approx(v.z, z, tol)
}

#[test]
fn magnitude_is_exact_on_pythagorean_triples() {
    let v = Vector::new(3 * SCALE, 4 * SCALE, 0);
    assert_eq!(v.magnitude(), 5 * SCALE);
    let w = Vector::new(5 * SCALE, 12 * SCALE, 0);
    assert_eq!(w.magnitude(), 13 * SCALE);
}

#[test]
fn with_magnitude_reaches_requested_magnitude() {
    let v = Vector::new(3 * SCALE, 4 * SCALE, 0);
    let r = v.with_magnitude(2 * SCALE);
    assert!(approx(r.magnitude(), 2 * SCALE, LENGTH_EPS));
    let w = Vector::new(5 * SCALE, 12 * SCALE, 0);
    let r2 = w.with_magnitude(SCALE);
    assert!(approx(r2.magnitude(), SCALE, LENGTH_EPS));
    let u = Vector::new(700_000, -300_000, 1_100_000);
    let r3 = u.with_magnitude(SCALE);
    assert!(approx(r3.magnitude(), SCALE, LENGTH_EPS));
}

#[test]
fn with_magnitude_of_zero_vector_stays_zero() {
    let v = Vector::new(0, 0, 0);
    let r = v.with_magnitude(0);
    assert_eq!((r.x, r.y, r.z), (0, 0, 0));
}

#[test]
fn cross_and_dot_are_exact() {
    let x = Vector::new(SCALE, 0, 0);
    let y = Vector::new(0, SCALE, 0);
    let c = x.cross(y);
    assert_eq!((c.x, c.y, c.z), (0, 0, SCALE));
    assert_eq!(x.dot(y), 0);
    assert_eq!(x.dot(x), SCALE);
}

#[test]
fn equals_needs_both_componentwise_and_squared_checks() {
    let a = Vector::new(0, 0, 0);
    // Componentwise each offset is within tolerance, but the diagonal
    // distance is not: the squared check must reject it.
    let diag = Vector::new(10, 10, 10);
    assert!(!a.equals(diag, 10));
    let near = Vector::new(5, 0, 0);
    assert!(a.equals(near, 10));
    assert!(!a.equals(Vector::new(11, 0, 0), 10));
}

#[test]
fn normal_is_perpendicular_and_unit() {
    let cases = [
        Vector::new(SCALE, 0, 0),
        Vector::new(0, 0, SCALE),
        Vector::new(3 * SCALE, 4 * SCALE, 0),
        Vector::new(SCALE, SCALE, SCALE),
        Vector::new(-2 * SCALE, SCALE, 5 * SCALE),
    ];
    for v in cases {
        for which in 0..2u32 {
            let n = v.normal(which);
            assert!(approx(n.magnitude(), SCALE, 2), "normal not unit for {:?}", v);
            let u = v.with_magnitude(SCALE);
            assert!(approx(u.dot(n), 0, 4), "normal not perpendicular for {:?}", v);
        }
    }
}

#[test]
fn quaternion_from_uv_identity_branch() {
    // The trace-dominant branch: the identity frame.
    let q = Quaternion::from_uv(Vector::new(SCALE, 0, 0), Vector::new(0, SCALE, 0));
    assert!(vec_approx(q.rotation_u(), SCALE, 0, 0, 3));
    assert!(vec_approx(q.rotation_v(), 0, SCALE, 0, 3));
    assert!(vec_approx(q.rotation_n(), 0, 0, SCALE, 3));
}

#[test]
fn quaternion_from_uv_x_branch() {
    // A half turn about x: the u-diagonal dominates.
    let u = Vector::new(SCALE, 0, 0);
    let v = Vector::new(0, -SCALE, 0);
    let q = Quaternion::from_uv(u, v);
    assert!(vec_approx(q.rotation_u(), u.x, u.y, u.z, 3));
    assert!(vec_approx(q.rotation_v(), v.x, v.y, v.z, 3));
}

#[test]
fn quaternion_from_uv_y_branch() {
    // A half turn about y: the v-diagonal dominates.
    let u = Vector::new(-SCALE, 0, 0);
    let v = Vector::new(0, SCALE, 0);
    let q = Quaternion::from_uv(u, v);
    assert!(vec_approx(q.rotation_u(), u.x, u.y, u.z, 3));
    assert!(vec_approx(q.rotation_v(), v.x, v.y, v.z, 3));
}

#[test]
fn quaternion_from_uv_z_branch() {
    // A half turn about z: the n-diagonal dominates.
    let u = Vector::new(-SCALE, 0, 0);
    let v = Vector::new(0, -SCALE, 0);
    let q = Quaternion::from_uv(u, v);
    assert!(vec_approx(q.rotation_u(), u.x, u.y, u.z, 3));
    assert!(vec_approx(q.rotation_v(), v.x, v.y, v.z, 3));
}

#[test]
fn inverse_composes_to_identity() {
    let axes = [
        Vector::new(SCALE, 0, 0),
        Vector::new(0, SCALE, 0),
        Vector::new(0, 0, SCALE),
        Vector::new(SCALE, SCALE, SCALE),
    ];
    for axis in axes {
        // A quarter turn about each axis, and one composite rotation.
        let q = Quaternion::from_axis_angle(axis, SCALE / 2);
        let r = q.inverse().times(q);
        assert!(approx(r.w, SCALE, 10), "inverse about {:?}", axis);
        assert!(approx(r.vx, 0, 10));
        assert!(approx(r.vy, 0, 10));
        assert!(approx(r.vz, 0, 10));
    }
}

#[test]
fn power_zero_is_identity_and_power_one_is_self() {
    let q = Quaternion::from_axis_angle(Vector::new(0, 0, SCALE), SCALE / 2);
    let p0 = q.to_the(0);
    assert_eq!((p0.w, p0.vx, p0.vy, p0.vz), (SCALE, 0, 0, 0));
    let p1 = q.to_the(SCALE);
    assert!(approx(p1.w, q.w, 2));
    assert!(approx(p1.vx, q.vx, 2));
    assert!(approx(p1.vy, q.vy, 2));
    assert!(approx(p1.vz, q.vz, 2));
}

#[test]
fn half_power_composed_with_itself_recovers_the_rotation() {
    let q = Quaternion::from_axis_angle(Vector::new(0, 0, SCALE), SCALE / 2);
    let h = q.to_the(SCALE / 2);
    let hh = h.times(h);
    // Compare the frames, which are insensitive to the quaternion sign.
    let want = q.rotation_u();
    let got = hh.rotation_u();
    assert!(approx(got.x, want.x, 2000));
    assert!(approx(got.y, want.y, 2000));
    assert!(approx(got.z, want.z, 2000));
}

#[test]
fn rotate_turns_the_frame() {
    // A quarter turn about z carries x to y.
    let q = Quaternion::from_axis_angle(Vector::new(0, 0, SCALE), SCALE / 2);
    let r = q.rotate(Vector::new(SCALE, 0, 0));
    assert!(vec_approx(r, 0, SCALE, 0, 2000));
}

#[test]
fn mirror_negates_u_and_v() {
    let q = Quaternion::new(SCALE, 0, 0, 0);
    let m = q.mirror();
    assert!(vec_approx(m.rotation_u(), -SCALE, 0, 0, 3));
    assert!(vec_approx(m.rotation_v(), 0, -SCALE, 0, 3));
    assert!(vec_approx(m.rotation_n(), 0, 0, SCALE, 3));
}

#[test]
fn direction_cosine_of_perpendicular_and_parallel() {
    let x = Vector::new(7 * SCALE, 0, 0);
    let y = Vector::new(0, 3 * SCALE, 0);
    assert_eq!(x.direction_cosine_with(y), 0);
    assert!(approx(x.direction_cosine_with(x), SCALE, 2));
}

#[test]
fn rotated_about_origin_axis_half_turn() {
    let p = Vector::new(2 * SCALE, 0, 0);
    let origin = Vector::new(SCALE, 0, 0);
    let axis = Vector::new(0, 0, SCALE);
    let r = p.rotated_about_origin_axis(origin, axis, SCALE);
    assert!(vec_approx(r, 0, 0, 0, 2000));
}
