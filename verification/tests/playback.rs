use vsm::json::{parse, Json};
use vsm::playback::{
    paired, pick, plan_audio, plan_clock, rotation_of, setup, Feed, Lookup, Move, PlanError,
    Playback, Setup, Timeline,
};

fn row(time: i64, valid: &str) -> String {
    format!(
        r#"{{"effective_time_ns":{time},"frame_id":"world","segment_id":"one","position_m":[1.0,0.0,0.0],"rotation_xyzw":[0.0,0.0,0.0,1.0],"validity":"{valid}"}}"#
    )
}

fn rows(list: &[(i64, &str)]) -> Json {
    let all: Vec<String> = list.iter().map(|(t, v)| row(*t, v)).collect();
    parse(&format!("[{}]", all.join(","))).unwrap()
}

fn timeline(list: &[(i64, &str)]) -> Result<Timeline, PlanError> {
    let json = rows(list);
    let unit = json.items().unwrap().iter().map(|r| rotation_of(r).is_some()).collect();
    Timeline::new(&json, &unit)
}

#[test]
fn no_interpolation_across_invalid_interval() {
    let timeline = timeline(&[(0, "valid"), (100, "invalid"), (200, "valid")]).unwrap();
    assert!(timeline.at(50).is_err());
    assert!(timeline.at(100).is_err());
    assert!(timeline.at(0).is_ok());
}

#[test]
fn positions_lie_between_valid_samples() {
    let t = timeline(&[(0, "valid"), (100, "valid"), (200, "invalid")]).unwrap();
    assert_eq!(t.at(0), Ok(Lookup::Exact(0)));
    assert_eq!(t.at(60), Ok(Lookup::Between(0)));
    assert_eq!(t.at(100), Ok(Lookup::Exact(1)));
    assert_eq!(t.at(-1), Err(PlanError::Uncovered));
    assert_eq!(t.at(201), Err(PlanError::Uncovered));
    assert_eq!(t.at(200), Err(PlanError::Invalid));
    assert_eq!(t.sample(1).at, 100);
    let other = timeline(&[(0, "valid"), (100, "valid")]).unwrap();
    assert!(paired(&t, &other, 50).is_ok());
}

#[test]
fn broken_timelines_are_refused() {
    assert_eq!(timeline(&[]).unwrap_err(), PlanError::Length);
    assert_eq!(timeline(&[(5, "valid"), (5, "valid")]).unwrap_err(), PlanError::Order);
    assert_eq!(Timeline::new(&Json::Null, &vec![]).unwrap_err(), PlanError::Timeline);
    let json = rows(&[(0, "valid")]);
    assert_eq!(Timeline::new(&json, &vec![false]).unwrap_err(), PlanError::Values);
}

#[test]
fn plans_are_read() {
    let plan = parse(
        r#"{"audio_path":"a.wav","channel":1,"block_size":256,"distance_gain":"bounded_inverse","clock":{"reference_sample":0}}"#,
    )
    .unwrap();
    assert_eq!(plan_audio(&plan).unwrap(), "a.wav");
    assert_eq!(setup(&plan, 2, 10), Ok(Setup { channel: 1, block: 256, bounded: true }));
    assert_eq!(setup(&plan, 1, 10), Err(PlanError::Empty));
    assert_eq!(setup(&plan, 2, 0), Err(PlanError::Empty));
    assert_eq!(plan_audio(&Json::Null).unwrap_err(), PlanError::Audio);
    assert_eq!(setup(&Json::Null, 2, 1), Err(PlanError::Channel));
    assert_eq!(plan_clock(&Json::Null).unwrap_err(), PlanError::Clock);
    let missing = |text: &str| setup(&parse(text).unwrap(), 2, 1).unwrap_err();
    assert_eq!(missing(r#"{"channel":0}"#), PlanError::Block);
    assert_eq!(missing(r#"{"channel":0,"block_size":256}"#), PlanError::Distance);
    assert_eq!(
        missing(r#"{"channel":0,"block_size":256,"distance_gain":"far"}"#),
        PlanError::UnknownDistance
    );
}

#[test]
fn one_channel_is_picked_and_filled_up() {
    assert_eq!(pick(&[1, 2, 3, 4], 2, 1, 4), [2, 4, 0, 0]);
}

#[test]
fn feeds_give_every_frame_once() {
    let mut feed = Feed::new(5, 2);
    let mut out = Vec::new();
    let mut filled = Vec::new();
    loop {
        match feed.next(100 - out.len()) {
            Move::Done | Move::End => break,
            Move::Take => {
                let wanted = 100 - out.len();
                feed.take(&mut out, wanted);
            }
            Move::Fill(first, count) => {
                filled.push((first, count));
                feed.filled((0..count).map(|k| first as u32 + k).collect(), count);
            }
            Move::Drain => {
                feed.drained(vec![9], true);
            }
        }
    }
    assert_eq!(filled, [(0, 2), (2, 2), (4, 1)]);
    assert_eq!(out, [0, 1, 2, 3, 4, 9]);
}

#[test]
fn playback_surrounds_the_audio_with_silence() {
    let mut p = Playback::open(3, 10).unwrap();
    let first = p.read(5).unwrap();
    assert_eq!((first.lead, first.first, first.audio, first.trail), (3, 0, 2, 0));
    p.pass(first);
    let failed = p.read(20).unwrap();
    let rest = p.read(20).unwrap();
    assert_eq!(failed, rest);
    assert_eq!((rest.lead, rest.first, rest.audio, rest.trail), (0, 2, 8, 3));
    p.pass(rest);
    let none = p.read(5).unwrap();
    assert_eq!((none.lead, none.audio, none.trail), (0, 0, 0));
}

#[test]
fn failed_reads_pass_only_the_silence_before_the_audio() {
    let mut p = Playback::open(3, 10).unwrap();
    assert_eq!(p.read(5).unwrap().lead, 3);
    let again = p.read(5).unwrap();
    assert_eq!((again.lead, again.first, again.audio), (0, 0, 5));
    assert!(Playback::allowed(480_000).is_ok() && Playback::allowed(480_001).is_err());
    assert!(p.read(480_001).is_err());
}
