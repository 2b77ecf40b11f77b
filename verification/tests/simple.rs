use std::f64::consts::PI;
use vsm::math::{Pose, Quat, Vec3};
use vsm::simple::{
    begin, check_motion, check_pivot, check_radius, check_residual, check_sample, pivot_row,
    CalibrationError, CalibrationSample, EstimateError, LocalCalibration, Motion,
};

type V = [f64; 3];
type Q = [f64; 4];

fn product(a: Q, b: Q) -> Q {
    [
        a[3] * b[0] + a[0] * b[3] + a[1] * b[2] - a[2] * b[1],
        a[3] * b[1] - a[0] * b[2] + a[1] * b[3] + a[2] * b[0],
        a[3] * b[2] + a[0] * b[1] - a[1] * b[0] + a[2] * b[3],
        a[3] * b[3] - a[0] * b[0] - a[1] * b[1] - a[2] * b[2],
    ]
}

fn rotate(q: Q, v: V) -> V {
    let p = product(product(q, [v[0], v[1], v[2], 0.]), [-q[0], -q[1], -q[2], q[3]]);
    [p[0], p[1], p[2]]
}

fn add(a: V, b: V) -> V {
    [a[0] + b[0], a[1] + b[1], a[2] + b[2]]
}

fn norm(a: V) -> f64 {
    a[0].hypot(a[1]).hypot(a[2])
}

fn apart(a: V, b: V) -> f64 {
    norm([a[0] - b[0], a[1] - b[1], a[2] - b[2]])
}

fn yaw(q: Q) -> f64 {
    let f = rotate(q, [0., 0., -1.]);
    (-f[0]).atan2(-f[2])
}

fn yaw_q(y: f64) -> Q {
    [0., (y / 2.).sin(), 0., (y / 2.).cos()]
}

fn angle(a: f64) -> f64 {
    (a + PI).rem_euclid(2. * PI) - PI
}

fn place(v: Vec3) -> V {
    [v.x, v.y, v.z].map(f64::from_bits)
}

fn turned(q: Quat) -> Q {
    [q.x, q.y, q.z, q.w].map(f64::from_bits)
}

fn vector(v: V) -> Vec3 {
    Vec3 { x: v[0].to_bits(), y: v[1].to_bits(), z: v[2].to_bits() }
}

fn pose(time_ns: i64, position: V, q: Q) -> Pose {
    let r = q.map(f64::to_bits);
    Pose {
        time_ns,
        position: vector(position),
        rotation: Quat { x: r[0], y: r[1], z: r[2], w: r[3] },
    }
}

fn moved(v: Vec3, by: V) -> Vec3 {
    vector(add(place(v), by))
}

fn fit(samples: &[CalibrationSample], mouth: f64) -> Result<LocalCalibration, CalibrationError> {
    begin(samples.len(), mouth.to_bits())?;
    let mut normal = [[0.; 5]; 4];
    let mut angles: Vec<f64> = Vec::new();
    let (mut previous, mut head, mut height) = (-1, 0f64, 0f64);
    for s in samples {
        check_sample(previous, s)?;
        previous = s.camera.time_ns;
        let y = yaw(turned(s.camera.rotation));
        angles.push(angles.last().map_or(y, |last| last + angle(y - last)));
        let camera = place(s.camera.position);
        head = head.max(apart(place(s.hmd.position), place(samples[0].hmd.position)));
        height = height.max((camera[1] - place(samples[0].camera.position)[1]).abs());
        let (sn, cs) = y.sin_cos();
        for (row, value) in [([1., 0., cs, sn], camera[0]), ([0., 1., -sn, cs], camera[2])] {
            for i in 0..4 {
                for j in 0..4 {
                    normal[i][j] += row[i] * row[j];
                }
                normal[i][4] += row[i] * value;
            }
        }
    }
    let most = angles.iter().copied().fold(f64::NEG_INFINITY, f64::max);
    let least = angles.iter().copied().fold(f64::INFINITY, f64::min);
    let arc = (most - least).to_degrees();
    check_motion(Motion { head: head.to_bits(), height: height.to_bits(), arc: arc.to_bits() })?;
    for i in 0..4 {
        let column: Vec<u64> = normal.iter().map(|r| r[i].to_bits()).collect();
        normal.swap(i, pivot_row(&column, i));
        check_pivot(normal[i][i].to_bits())?;
        let divisor = normal[i][i];
        for j in i..5 {
            normal[i][j] /= divisor;
        }
        for k in 0..4 {
            if k != i {
                let factor = normal[k][i];
                for j in i..5 {
                    normal[k][j] -= factor * normal[i][j];
                }
            }
        }
    }
    let f = normal.map(|r| r[4]);
    let radius = f[2].hypot(f[3]);
    check_radius(radius.to_bits())?;
    let error: f64 = samples
        .iter()
        .map(|s| {
            let r = rotate(yaw_q(yaw(turned(s.camera.rotation))), [f[2], 0., f[3]]);
            let c = place(s.camera.position);
            (c[0] - f[0] - r[0]).powi(2) + (c[2] - f[1] - r[2]).powi(2)
        })
        .sum();
    let residual = (error / samples.len() as f64).sqrt();
    check_residual(residual.to_bits())?;
    let first = &samples[0];
    let camera_yaw = yaw(turned(first.camera.rotation));
    Ok(LocalCalibration {
        schema_version: 1,
        calibrated_at_ns: samples[samples.len() - 1].camera.time_ns,
        camera_yaw: camera_yaw.to_bits(),
        pivot_from_camera: vector([-f[2], 0., -f[3]]),
        hmd: first.hmd,
        world_from_tracking_yaw: angle(camera_yaw + PI - yaw(turned(first.hmd.rotation))).to_bits(),
        mouth_forward_m: mouth.to_bits(),
        arc_degrees: arc.to_bits(),
        residual_rms_m: residual.to_bits(),
        camera_radius_m: radius.to_bits(),
        head_motion_m: head.to_bits(),
    })
}

fn estimate(c: &LocalCalibration, camera: &Pose, hmd: &Pose, at: i64) -> Result<V, EstimateError> {
    c.estimable(camera, hmd, at)?;
    c.positioned(camera, hmd)?;
    c.still(apart(place(hmd.position), place(c.hmd.position)).to_bits())?;
    let y = yaw(turned(camera.rotation));
    let tracking = f64::from_bits(c.world_from_tracking_yaw);
    let forward = [0., 0., -f64::from_bits(c.mouth_forward_m)];
    let world =
        product(yaw_q(y - f64::from_bits(c.camera_yaw) + tracking), turned(hmd.rotation));
    let first = product(yaw_q(tracking), turned(c.hmd.rotation));
    let pivot = rotate(yaw_q(y), place(c.pivot_from_camera));
    let mut mouth = add(add(place(camera.position), pivot), rotate(world, forward));
    mouth[1] -= rotate(first, forward)[1];
    Ok(mouth)
}

fn samples() -> Vec<CalibrationSample> {
    (0..101)
        .map(|i| {
            let q = yaw_q(i as f64 / 100. * 2. * PI);
            let t = 1_000_000_000 + i * 20_000_000;
            CalibrationSample {
                camera: pose(t, add([2., 1.3, -3.], rotate(q, [0., 0., 0.5])), q),
                hmd: pose(t, [0., 1.6, 0.], yaw_q(PI)),
            }
        })
        .collect()
}

#[test]
fn orbit_and_held_out_translation() {
    let s = samples();
    let c = fit(&s, 0.07).unwrap();
    assert!(f64::from_bits(c.residual_rms_m) < 1e-10);
    assert!((f64::from_bits(c.camera_radius_m) - 0.5).abs() < 1e-10);
    let mut cam = s.last().unwrap().camera;
    let mut h = s.last().unwrap().hmd;
    cam.position = moved(cam.position, [4., 0., 2.]);
    cam.time_ns += 1;
    h.time_ns += 1;
    let m = estimate(&c, &cam, &h, cam.time_ns).unwrap();
    assert!(apart(m, [6., 1.3, -0.93]) < 1e-10);
    h.position = moved(h.position, [0.2, 0., 0.]);
    assert!(estimate(&c, &cam, &h, cam.time_ns).is_err());
}

#[test]
fn rejects_unobservable_or_mixed_calibration() {
    let mut s = samples();
    assert!(fit(&s[..20], 0.07).is_err());
    s[40].camera.position = moved(s[40].camera.position, [1., 0., 0.]);
    assert!(fit(&s, 0.07).is_err());
    let mut s = samples();
    s[30].hmd.position = moved(s[30].hmd.position, [0.1, 0., 0.]);
    assert!(fit(&s, 0.07).is_err());
    let mut s = samples();
    s[20].camera.time_ns = s[19].camera.time_ns;
    assert!(fit(&s, 0.07).is_err());
}

#[test]
fn calibrations_are_refused_for_what_is_wrong_with_them() {
    let s = samples();
    assert_eq!(fit(&s[..19], 0.07).unwrap_err(), CalibrationError::Count);
    assert_eq!(fit(&s, 0.21).unwrap_err(), CalibrationError::Mouth);
    assert_eq!(fit(&s[..20], 0.07).unwrap_err(), CalibrationError::Arc);
    let spoiled = |change: fn(&mut CalibrationSample)| {
        let mut s = samples();
        change(&mut s[30]);
        fit(&s, 0.07).unwrap_err()
    };
    assert_eq!(spoiled(|s| s.camera.time_ns = 0), CalibrationError::Order);
    assert_eq!(spoiled(|s| s.hmd.position.x = f64::NAN.to_bits()), CalibrationError::Position);
    assert_eq!(spoiled(|s| s.hmd.time_ns += 1), CalibrationError::Stale);
    assert_eq!(spoiled(|s| s.hmd.time_ns -= 150_000_001), CalibrationError::Stale);
    assert_eq!(
        spoiled(|s| s.hmd.position = moved(s.hmd.position, [0.1, 0., 0.])),
        CalibrationError::Head
    );
    assert_eq!(
        spoiled(|s| s.camera.position = moved(s.camera.position, [0., 0.1, 0.])),
        CalibrationError::Height
    );
    assert_eq!(
        spoiled(|s| s.camera.position = moved(s.camera.position, [1., 0., 0.])),
        CalibrationError::Residual
    );
    let limits = f64::to_bits;
    assert_eq!(check_pivot(limits(-1e-9)), Err(CalibrationError::Separate));
    assert_eq!(check_pivot(limits(-1e-7)), Ok(()));
    assert_eq!(check_radius(limits(0.04)), Err(CalibrationError::Radius));
    assert_eq!(check_radius(limits(5.)), Ok(()));
    assert_eq!(pivot_row(&[limits(9.), limits(-2.), limits(1.), limits(2.)], 1), 3);
}

#[test]
fn estimates_need_a_fresh_headset() {
    let s = samples();
    let c = fit(&s, 0.07).unwrap();
    let last = s.last().unwrap();
    let (cam, h) = (last.camera, last.hmd);
    let at = |time: i64| estimate(&c, &cam, &h, time).map(|_| ());
    assert_eq!(at(cam.time_ns - 1), Err(EstimateError::Uncalibrated));
    assert_eq!(at(cam.time_ns + 150_000_000), Ok(()));
    assert_eq!(at(cam.time_ns + 150_000_001), Err(EstimateError::Headset));
    let mut nowhere = cam;
    nowhere.position.y = f64::INFINITY.to_bits();
    assert_eq!(estimate(&c, &nowhere, &h, cam.time_ns), Err(EstimateError::Position));
}
