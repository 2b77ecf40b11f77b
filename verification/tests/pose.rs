use vsm::json::{Json, Number};
use vsm::math::{Quat, Vec3};
use vsm::osc::Message;
use vsm::pose::{
    Answer, Ask, Axis, Checkpoint, LivePose, Orientation, PoseError, Reason, SourceModel, Turn,
};

const STILL: Quat = Quat { x: 0, y: 0, z: 0, w: 0x3ff0_0000_0000_0000 };

fn number(value: f64) -> Json {
    Json::Number(Number { signed: None, unsigned: None, bits: value.to_bits() })
}

fn integer(value: i64) -> Json {
    Json::Number(Number {
        signed: Some(value),
        unsigned: u64::try_from(value).ok(),
        bits: (value as f64).to_bits(),
    })
}

fn message(address: &str, typetag: &str, values: Vec<Json>) -> Message {
    Message { address: address.to_owned(), typetag: typetag.to_owned(), values }
}

fn scalar(field: &str, value: f64) -> Message {
    message(&format!("/avatar/parameters/VBS/Ref/{field}"), ",f", vec![number(value)])
}

fn vector(v: [f64; 3]) -> Vec3 {
    Vec3 { x: v[0].to_bits(), y: v[1].to_bits(), z: v[2].to_bits() }
}

fn product(a: [f64; 4], b: [f64; 4]) -> [f64; 4] {
    [
        a[3] * b[0] + a[0] * b[3] + a[1] * b[2] - a[2] * b[1],
        a[3] * b[1] - a[0] * b[2] + a[1] * b[3] + a[2] * b[0],
        a[3] * b[2] + a[0] * b[1] - a[1] * b[0] + a[2] * b[3],
        a[3] * b[3] - a[0] * b[0] - a[1] * b[1] - a[2] * b[2],
    ]
}

fn rotation(degrees: [f64; 3]) -> [f64; 4] {
    let [x, y, z] = degrees.map(|v| v * std::f64::consts::PI / 360.);
    let q = product(
        product([0., y.sin(), 0., y.cos()], [x.sin(), 0., 0., x.cos()]),
        [0., 0., z.sin(), z.cos()],
    );
    [-q[0], -q[1], q[2], q[3]]
}

fn relative(source: [f64; 3], listener: [f64; 3], q: [f64; 4]) -> [f64; 3] {
    let v = [source[0] - listener[0], source[1] - listener[1], source[2] - listener[2]];
    let c = [-q[0], -q[1], -q[2], q[3]];
    let p = product(product(c, [v[0], v[1], v[2], 0.]), q);
    [p[0], p[1], p[2]]
}

fn feed(pose: &mut LivePose, messages: &[Message], at: i64, snapshot: bool, request_start: i64) {
    for m in messages {
        let mut answer = Answer { rotation: STILL, drift: false };
        match pose.ask(m, snapshot, request_start) {
            Ask::Nothing => {}
            Ask::Rotation(x, y, z) => {
                let q = rotation([x, y, z].map(f64::from_bits)).map(f64::to_bits);
                answer.rotation = Quat { x: q[0], y: q[1], z: q[2], w: q[3] };
            }
            Ask::Drift(a, b) => {
                let (a, b) = (f64::from_bits(a), f64::from_bits(b));
                answer.drift = (a - b).abs() > 1e-6 * a.abs().max(b.abs());
            }
        }
        pose.feed(m, at, snapshot, request_start, answer).unwrap();
    }
}

fn radius(pose: &LivePose, i: usize) -> f64 {
    if (3..6).contains(&i) {
        1.
    } else {
        1000. * pose.probe_scale().map_or(1., f64::from_bits)
    }
}

fn axes(pose: &LivePose) -> Vec<Axis> {
    (0..9)
        .map(|i| {
            let Some((magnitude, positive)) = pose.reading(i) else {
                return Axis { near: false, mismatch: false };
            };
            let (magnitude, positive) = (f64::from_bits(magnitude), f64::from_bits(positive));
            let direction = (3..6).contains(&i);
            let radius = radius(pose, i);
            let d = (1. - magnitude) * radius;
            let near = if direction { 0.04 } else { 0.10 };
            let tolerance = if direction { 0.02 } else { 0.03 };
            Axis {
                near: d <= near,
                mismatch: positive <= 2. * near / radius
                    && d > near + tolerance
                    && d < radius / 2.
                    && 2. * (d / radius).min(1. - d / radius) - positive > 2. * tolerance / radius,
            }
        })
        .collect()
}

/// What a look at the mouth comes to: whether it is valid, and where the mouth is, in
/// the world and seen from the camera.
#[derive(Debug, PartialEq)]
struct Seen {
    valid: bool,
    reason: Reason,
    orientation: Orientation,
    model: SourceModel,
    mouth: [f64; 3],
    relative: [f64; 3],
    epoch: u64,
}

fn look(pose: &mut LivePose, at: i64) -> Seen {
    let axes = axes(pose);
    let result = pose.at(at, &axes).unwrap();
    let mut mouth = [0.; 3];
    let mut seen = [0.; 3];
    if result.valid {
        for (k, m) in mouth.iter_mut().enumerate() {
            let (magnitude, _) = pose.reading(6 + k).unwrap();
            let d = (1. - f64::from_bits(magnitude)) * radius(pose, 6);
            *m = if result.towards[k] { d } else { -d };
        }
        mouth[2] *= -1.;
        let camera = pose.camera();
        let place = [camera.position.x, camera.position.y, camera.position.z].map(f64::from_bits);
        let r = camera.rotation;
        seen = relative(mouth, place, [r.x, r.y, r.z, r.w].map(f64::from_bits));
    }
    Seen {
        valid: result.valid,
        reason: result.reason,
        orientation: result.orientation,
        model: result.source_model,
        mouth,
        relative: seen,
        epoch: pose.epoch(),
    }
}

fn restored(checkpoint: Checkpoint, offset: [f64; 3], mode: &str) -> LivePose {
    let mut pose = LivePose::new(vector(offset), mode).unwrap();
    let (camera, hmd) = (checkpoint.camera.rotation, checkpoint.hmd.rotation);
    pose.restore(checkpoint, Some(camera), Some(hmd)).unwrap();
    pose
}

fn distance(a: [f64; 3], b: [f64; 3]) -> f64 {
    (a[0] - b[0]).hypot(a[1] - b[1]).hypot(a[2] - b[2])
}

#[test]
fn stationary_camera_and_snapshot_epoch() {
    let mut p = LivePose::new(vector([0.; 3]), "auto").unwrap();
    let mut messages = vec![
        message("/usercamera/Pose", ",ffffff", (0..6).map(|_| integer(0)).collect()),
        message("/avatar/parameters/VBS/Ref/ProbeVersion", ",i", vec![integer(2)]),
    ];
    for (a, v) in [("x", 1.), ("y", 2.), ("z", 3.)] {
        messages.push(scalar(&format!("mouth/p/{a}"), 1. - v / 1000.));
        messages.push(scalar(&format!("mouth/p/{a}+"), 0.5));
    }
    feed(&mut p, &messages, 100, false, 0);
    let first = look(&mut p, 200);
    assert!(first.valid);
    assert!((first.relative[0] - 1.).abs() < 1e-9);
    let mut restored = restored(p.checkpoint(), [0., 0.1, 0.], "auto");
    assert_eq!(look(&mut p, 1_000_000_000), look(&mut restored, 1_000_000_000));
    assert!(!look(&mut p, 3_000_000_101).valid);
    let change = [message("/avatar/change", ",s", vec![Json::Text("new".to_owned())])];
    feed(&mut p, &change, 4_000_000_000, false, 0);
    feed(&mut p, &messages, 4_100_000_000, true, 3_900_000_000);
    assert!(!look(&mut p, 4_100_000_000).valid);
}

#[test]
fn avatar_scale_restores_contact_world_units_and_survives_checkpoint() {
    let mut p = LivePose::new(vector([0.; 3]), "mouth_probe").unwrap();
    let factor = |v: f64| message("/avatar/parameters/ScaleFactor", ",f", vec![number(v)]);
    let mut messages = vec![
        message("/usercamera/Pose", ",ffffff", (0..6).map(|_| integer(0)).collect()),
        factor(1.),
    ];
    for (axis, v) in [("x", 2.), ("y", 1.), ("z", 3.)] {
        messages.push(scalar(&format!("mouth/p/{axis}"), 1. - v / 1000.));
        messages.push(scalar(&format!("mouth/p/{axis}+"), 0.5));
    }
    feed(&mut p, &messages, 1_000_000_000, false, 0);
    assert!(look(&mut p, 1_000_000_000).valid);
    feed(&mut p, &[factor(2.)], 1_100_000_000, false, 0);
    assert!(!look(&mut p, 1_110_000_000).valid);
    // After a scale change, world X/Z stay fixed while height doubles.
    feed(
        &mut p,
        &[scalar("mouth/p/x", 0.999), scalar("mouth/p/z", 0.9985)],
        1_120_000_000,
        false,
        0,
    );
    // An HTTP response requested before the new UDP value cannot undo it.
    feed(&mut p, &[factor(1.)], 1_150_000_000, true, 1_050_000_000);
    let mut restored = restored(p.checkpoint(), [0.; 3], "mouth_probe");
    let a = look(&mut p, 1_250_000_000);
    let b = look(&mut restored, 1_250_000_000);
    assert!(a.valid && distance(a.mouth, [2., 2., -3.]) < 1e-9);
    assert_eq!(a, b);
    feed(&mut p, &[factor(0.)], 1_300_000_000, false, 0);
    assert!(!look(&mut p, 1_500_000_000).valid);
}

#[test]
fn mouth_only_matches_three_point_tracking_and_survives_replay() {
    let mut minimal = LivePose::new(vector([0.; 3]), "auto").unwrap();
    let mut reference = LivePose::new(vector([0.; 3]), "auto").unwrap();
    for frame in 0..20 {
        let time = (frame + 1) * 100_000_000;
        let position = [0.25 + frame as f64 * 0.025, 1.6, -0.5];
        let mut messages = vec![
            message("/avatar/parameters/VBS/Ref/ProbeVersion", ",i", vec![integer(2)]),
            message(
                "/usercamera/Pose",
                ",ffffff",
                [0., 1.6, 0., 0., frame as f64 * 5., 0.].map(number).into_iter().collect(),
            ),
        ];
        for (axis, value) in ["x", "y", "z"].into_iter().zip(position) {
            messages.push(scalar(&format!("mouth/p/{axis}"), 1. - value.abs() / 1000.));
            messages.push(scalar(
                &format!("mouth/p/{axis}+"),
                if value > 0. { 2. * value / 1000. } else { 0. },
            ));
        }
        feed(&mut minimal, &messages, time, false, 0);
        for probe in ["head", "mouth", "root"] {
            for kind in ["p", "r"] {
                if probe == "mouth" && kind == "p" {
                    continue;
                }
                for axis in ["x", "y", "z"] {
                    messages.push(scalar(&format!("{probe}/{kind}/{axis}"), 0.99));
                    messages.push(scalar(&format!("{probe}/{kind}/{axis}+"), 0.5));
                }
            }
        }
        feed(&mut reference, &messages, time, false, 0);
        let a = look(&mut minimal, time);
        let b = look(&mut reference, time);
        assert!(a.valid, "{}", a.reason.text());
        assert!(b.valid, "{}", b.reason.text());
        assert_eq!(a.orientation.name(), "mouth_position_only");
        assert_eq!(a.relative, b.relative);
        for (actual, expected) in
            a.mouth.into_iter().zip([position[0], position[1], -position[2]])
        {
            assert!((actual - expected).abs() < 1e-8);
        }
        if frame == 9 {
            minimal = restored(minimal.checkpoint(), [0.; 3], "auto");
        }
    }
    assert!(
        !look(&mut minimal, 6_000_000_000).valid,
        "A disconnected module must become invalid"
    );
}

fn headed(pose: &mut LivePose, at: i64) {
    let mut messages = vec![message(
        "/usercamera/Pose",
        ",ffffff",
        (0..6).map(|_| integer(0)).collect(),
    )];
    for kind in ["p", "r"] {
        for axis in ["x", "y", "z"] {
            messages.push(scalar(&format!("head/{kind}/{axis}"), 0.5));
            messages.push(scalar(&format!("head/{kind}/{axis}+"), 0.5));
        }
    }
    feed(pose, &messages, at, false, 0);
}

#[test]
fn heads_are_oriented_by_the_headset() {
    let mut p = LivePose::new(vector([0.; 3]), "head_offset").unwrap();
    headed(&mut p, 1000);
    let axes = axes(&p);
    let result = p.at(1000, &axes).unwrap();
    assert_eq!(result.reason, Reason::Head);
    assert_eq!(result.towards, [true; 6]);
    let turn = Turn { faint: false, level: true, yaw: Some(1f64.to_bits()), hint: true };
    assert_eq!(p.orient(1000, turn), (Reason::Head, Orientation::ZeroRoll));
    let headset = message(
        "/tracking/vrsystem/head/pose",
        ",ffffff",
        (0..6).map(|_| integer(0)).collect(),
    );
    feed(&mut p, &[headset], 2000, false, 0);
    assert_eq!(p.orient(2000, turn), (Reason::Head, Orientation::HeadsetUp));
    assert_eq!(p.last_yaw(), 1f64.to_bits());
    let unturned = Turn { yaw: None, ..turn };
    assert_eq!(p.orient(150_002_000, unturned), (Reason::Head, Orientation::HeadsetUp));
    assert_eq!(p.orient(150_002_001, unturned), (Reason::Head, Orientation::ZeroRoll));
    let faint = Turn { faint: true, ..turn };
    assert_eq!(p.orient(3000, faint), (Reason::Facing, Orientation::Open));
}

#[test]
fn signs_turn_after_a_lasting_disagreement() {
    let mut p = LivePose::new(vector([0.; 3]), "mouth_probe").unwrap();
    let mut messages = vec![message(
        "/usercamera/Pose",
        ",ffffff",
        (0..6).map(|_| integer(0)).collect(),
    )];
    for axis in ["x", "y", "z"] {
        messages.push(scalar(&format!("mouth/p/{axis}"), 0.5));
        messages.push(scalar(&format!("mouth/p/{axis}+"), 0.5));
    }
    feed(&mut p, &messages, 1, false, 0);
    let near = [Axis { near: true, mismatch: false }; 9];
    let odd = [Axis { near: false, mismatch: true }; 9];
    assert_eq!(p.at(1, &near).unwrap().inferred, [false; 3]);
    assert_eq!(p.at(100, &odd).unwrap().inferred, [false; 3]);
    assert_eq!(p.at(150_000_099, &odd).unwrap().inferred, [false; 3]);
    let turned = p.at(150_000_100, &odd).unwrap();
    assert_eq!(turned.inferred, [true; 3]);
    assert_eq!(turned.towards, [false; 3]);
}

#[test]
fn looks_go_forward_and_say_what_is_missing() {
    let quiet = [Axis { near: false, mismatch: false }; 9];
    let mut p = LivePose::new(vector([0.; 3]), "auto").unwrap();
    assert_eq!(p.at(5, &quiet).unwrap().reason, Reason::CameraWait);
    assert_eq!(p.at(4, &quiet).unwrap_err(), PoseError::Backwards);
    let camera =
        message("/usercamera/Pose", ",ffffff", (0..6).map(|_| integer(0)).collect());
    feed(&mut p, &[camera], 6, false, 0);
    assert_eq!(p.at(6, &quiet).unwrap().reason, Reason::HeadWait);
    feed(&mut p, &[scalar("head/p/x", 0.5)], 7, false, 0);
    assert_eq!(p.at(7, &quiet).unwrap().reason, Reason::HeadStarting);
    let version = |n| message("/avatar/parameters/VBS/Ref/ProbeVersion", ",i", vec![integer(n)]);
    feed(&mut p, &[version(2)], 8, false, 0);
    assert_eq!(p.at(8, &quiet).unwrap().reason, Reason::MouthWait);
    feed(&mut p, &[scalar("mouth/p/x", 0.)], 9, false, 0);
    assert_eq!(p.at(9, &quiet).unwrap().reason, Reason::MouthStarting);
    feed(&mut p, &[scalar("mouth/p/x+", 0.)], 10, false, 0);
    assert_eq!(p.at(10, &quiet).unwrap().reason, Reason::MouthRange);
    feed(&mut p, &[version(3)], 11, false, 0);
    let odd = p.at(11, &quiet).unwrap();
    assert_eq!((odd.reason, odd.source_model), (Reason::Unsupported, SourceModel::Unsupported));
}

#[test]
fn bad_poses_and_checkpoints_are_refused() {
    assert_eq!(LivePose::new(vector([2., 0., 0.]), "auto").unwrap_err(), PoseError::Offset);
    assert_eq!(LivePose::new(vector([0.; 3]), "other").unwrap_err(), PoseError::Mode);
    let mut p = LivePose::new(vector([0.; 3]), "auto").unwrap();
    let answer = Answer { rotation: STILL, drift: false };
    let short = message("/usercamera/Pose", ",ffffff", (0..5).map(|_| integer(0)).collect());
    assert_eq!(p.feed(&short, 1, false, 0, answer), Err(PoseError::SixNumbers));
    let text = message("/usercamera/Pose", ",ffffff", vec![Json::Null]);
    assert_eq!(p.feed(&text, 1, false, 0, answer), Err(PoseError::Number));
    let mut old = p.checkpoint();
    old.schema_version = 2;
    assert_eq!(p.restore(old, Some(STILL), Some(STILL)), Err(PoseError::Checkpoint));
    let mut endless = p.checkpoint();
    endless.last_yaw = f64::NAN.to_bits();
    assert_eq!(p.restore(endless, Some(STILL), Some(STILL)), Err(PoseError::Nonfinite));
    let mut nowhere = p.checkpoint();
    nowhere.camera.position.x = f64::INFINITY.to_bits();
    assert_eq!(p.restore(nowhere, Some(STILL), Some(STILL)), Err(PoseError::Position));
    let good = p.checkpoint();
    assert_eq!(p.restore(good, Some(STILL), None), Err(PoseError::Rotation));
}
