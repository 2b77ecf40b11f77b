use vsm::json::{are_equal, parse, Json};
use vsm::paths::{
    audio_path, can_rename, check_name, fault, order, pointer, reserved, stem_of, AudioError, AudioSource,
    NameError, Part, PathError, Pointer, Walk,
};
use vsm::pose::SourceMode;
use vsm::reprocess::{
    choose_source, device_position, event_time, failed_status, inputs, is_sealed, observation,
    unchanged, verdict, ClockRow, Line, Reorders, Replay, RowError, Source, Verdict, LINE_BYTES,
};
use vsm::session::{defaults, inspect, normalized, settings, with_options, Prospect, SettingsError};

fn json(text: &str) -> Json {
    parse(text).unwrap()
}

#[test]
fn settings_survive_being_saved() {
    let s = defaults();
    let saved = s.document();
    let again = settings(&saved).unwrap();
    assert!(are_equal(&saved, &again.document()));
    assert_eq!(f64::from_bits(again.gain_db), -18.);
    assert_eq!(f64::from_bits(again.mouth_offset_m.y), 0.0064);
    assert_eq!(f64::from_bits(again.mouth_offset_m.z), -0.0736);
    assert_eq!(again.source_mode, SourceMode::Auto);
    assert!(again.save_raw);
}

#[test]
fn settings_are_kept_as_they_are_written() {
    let kept = normalized(&json(r#"{"gain_db":-24,"channel":1,"extra":true}"#)).unwrap();
    assert_eq!(kept.signed_at("gain_db"), Some(-24));
    assert_eq!(kept.unsigned_at("channel"), Some(1));
    assert_eq!(kept.unsigned_at("schema_version"), Some(1));
    assert_eq!(kept.flag_at("save_raw"), Some(true));
    assert_eq!(kept.text_at("source_mode").unwrap(), "auto");
    assert!(kept.get("extra").is_none());
    assert!(are_equal(&normalized(&kept).unwrap(), &kept));
    assert_eq!(normalized(&json(r#"{"channel":32}"#)).unwrap_err(), SettingsError::Recording);
}

#[test]
fn settings_are_refused_for_what_is_wrong_with_them() {
    let refused = |text: &str| settings(&json(text)).unwrap_err();
    assert_eq!(refused("[]"), SettingsError::Object);
    assert_eq!(refused(r#"{"gain_db":"x"}"#), SettingsError::Gain);
    assert_eq!(refused(r#"{"channel":-1}"#), SettingsError::Channel);
    assert_eq!(refused(r#"{"channel":32}"#), SettingsError::Recording);
    assert_eq!(refused(r#"{"gain_db":12}"#), SettingsError::Recording);
    assert_eq!(refused(r#"{"endpoint_id":1}"#), SettingsError::EndpointId);
    assert_eq!(refused(r#"{"output_root":1}"#), SettingsError::OutputRoot);
    assert_eq!(refused(r#"{"source_mode":1}"#), SettingsError::SourceMode);
    assert_eq!(refused(r#"{"monitor_endpoint":1}"#), SettingsError::MonitorEndpoint);
    assert_eq!(refused(r#"{"save_raw":1}"#), SettingsError::SaveRaw);
    assert_eq!(refused(r#"{"mouth_offset_m":[1]}"#), SettingsError::OffsetShape);
    assert_eq!(refused(r#"{"mouth_offset_m":[1.5,0,0]}"#), SettingsError::Offset);
    assert_eq!(refused(r#"{"source_mode":"x"}"#), SettingsError::Mode);
    let s = settings(&json(r#"{"channel":1,"gain_db":-24,"source_mode":"mouth_probe"}"#)).unwrap();
    assert_eq!((s.channel, s.source_mode), (1, SourceMode::MouthProbe));
    assert_eq!(f64::from_bits(s.gain_db), -24.);
}

#[test]
fn options_replace_what_they_name() {
    let s = with_options(defaults(), &json(r#"{"gain_db":-24,"output_root":"x"}"#)).unwrap();
    assert_eq!(f64::from_bits(s.gain_db), -24.);
    assert_eq!(s.output_root, "");
    let loud = with_options(defaults(), &json(r#"{"gain_db":12}"#));
    assert_eq!(loud.unwrap_err(), SettingsError::Recording);
}

#[test]
fn recordings_are_processed_again_when_they_are_complete() {
    let stopped = json(r#"{"kind":"native_obs_ring_take","status":"stopped"}"#);
    assert_eq!(inspect(&stopped, true, true, true, false), Prospect::Complete);
    assert_eq!(inspect(&stopped, false, true, true, false), Prospect::HeardOnly);
    assert_eq!(inspect(&stopped, true, false, true, false), Prospect::Incomplete);
    let running = json(r#"{"kind":"native_obs_ring_take","status":"recording"}"#);
    assert_eq!(inspect(&running, true, true, true, false), Prospect::Recording);
}

#[test]
fn names_cannot_leave_their_folder() {
    for bad in ["../escape", "a/b", "a\\b", "C:escape", "a:b", "bad?", "end.", "end ", ".."] {
        assert!(check_name(bad).is_some(), "{bad}");
    }
    for bad in ["NUL", "con.wav", "LPT1", "COM¹", "aux"] {
        assert_eq!(check_name(bad), Some(NameError::Reserved), "{bad}");
    }
    assert_eq!(check_name(""), Some(NameError::Length));
    assert_eq!(check_name("a:b"), Some(NameError::Characters));
    assert_eq!(check_name("口元テスト その1"), None);
    assert_eq!(stem_of("con.wav"), "con");
    assert_eq!(fault("con.wav", "CON"), Some(NameError::Reserved));
    assert!(reserved("COM1") && !reserved("COMB"));
    assert!(!can_rename("recording") && can_rename("stopped"));
}

#[test]
fn walks_stay_inside_their_folder() {
    let base = || vec!["root".to_owned()];
    let normal = |name: &str| Part::Normal(name.to_owned());
    assert_eq!(Walk::child(base(), vec![normal("a"), Part::Other]).unwrap_err(), PathError::Escapes);
    let mut walk = Walk::child(base(), vec![normal("raw"), Part::Current, normal("a.wav")]).unwrap();
    assert!(walk.advance());
    assert_eq!(walk.path(), &["root", "raw"]);
    walk.resolved(vec!["root".to_owned(), "real".to_owned()]).unwrap();
    assert!(walk.advance());
    assert_eq!(walk.path(), &["root", "real"]);
    assert!(walk.advance());
    assert_eq!(walk.path(), &["root", "real", "a.wav"]);
    let outside = vec!["elsewhere".to_owned()];
    assert_eq!(walk.resolved(outside), Err(PathError::Link));
    assert!(!walk.advance());
}

#[test]
fn the_latest_audio_is_heard_first() {
    assert_eq!(audio_path(true, true, Pointer::Escaping, true), Ok(AudioSource::Original));
    assert_eq!(audio_path(true, false, Pointer::Present, true), Err(AudioError::NoOriginal));
    assert_eq!(audio_path(false, false, Pointer::Present, true), Ok(AudioSource::Latest));
    assert_eq!(audio_path(false, false, Pointer::Absent, true), Ok(AudioSource::Live));
    assert_eq!(audio_path(false, false, Pointer::Missing, true), Ok(AudioSource::Live));
    assert_eq!(audio_path(false, true, Pointer::Absent, false), Err(AudioError::NoAudio));
    for live in [false, true] {
        assert_eq!(audio_path(false, true, Pointer::Escaping, live), Err(AudioError::Escapes));
        assert_eq!(audio_path(false, true, Pointer::Invalid, live), Err(AudioError::Pointer));
    }
    let up = vec![Part::Other, Part::Normal("escape.wav".to_owned())];
    let down = vec![Part::Normal("renders".to_owned()), Part::Normal("a.wav".to_owned())];
    assert_eq!(pointer(Some(&up), false, true), Pointer::Escaping);
    assert_eq!(pointer(Some(&down), true, true), Pointer::Escaping);
    assert_eq!(pointer(Some(&down), false, true), Pointer::Present);
    assert_eq!(pointer(Some(&down), false, false), Pointer::Missing);
    assert_eq!(pointer(None, false, true), Pointer::Invalid);
}

#[test]
fn recordings_are_listed_the_newest_first() {
    let names: Vec<String> = ["b", "c", "a"].iter().map(|s| s.to_string()).collect();
    assert_eq!(order(&names), [1, 0, 2]);
    let many: Vec<String> = (0..600).map(|i| format!("{i:04}")).collect();
    assert_eq!(order(&many)[0], 599);
}

#[test]
fn lines_are_read_one_by_one() {
    let mut line = Line::new();
    assert_eq!(line.take(b"{\"a\":"), Ok((5, false)));
    assert_eq!(line.take(b"1}\nnext"), Ok((3, true)));
    assert_eq!(line.document().unwrap().unsigned_at("a"), Some(1));
    let mut blank = Line::new();
    assert!(blank.is_empty());
    blank.take(b" \t\r\n").unwrap();
    assert!(blank.is_blank() && !blank.is_empty());
    let mut long = Line::new();
    assert!(long.take(&vec![b'x'; LINE_BYTES]).is_ok());
    assert!(long.take(b"x").is_err());
}

const ROW: &str = r#"{"file_frame_start":0,"frames":480,"flags":0,"recorded_time_ns":7}"#;

#[test]
fn clocks_cover_every_frame() {
    let mut r = Replay::new(960);
    let packet = r.row(&json(ROW)).unwrap();
    assert_eq!(packet, ClockRow { first: 0, count: 480, flags: 0, at: 7, until: 100_000_007 });
    assert!(!r.done(packet));
    assert_eq!(r.row(&json(ROW)), Err(RowError::Frames));
    let row = |text: &str| r.row(&json(text));
    assert_eq!(row("{}"), Err(RowError::Frame));
    assert_eq!(row(r#"{"file_frame_start":480}"#), Err(RowError::Count));
    assert_eq!(row(r#"{"file_frame_start":480,"frames":481}"#), Err(RowError::Frames));
    assert_eq!(row(r#"{"file_frame_start":480,"frames":480}"#), Err(RowError::Flags));
    assert_eq!(
        row(r#"{"file_frame_start":480,"frames":480,"flags":4294967296}"#),
        Err(RowError::FlagRange)
    );
    assert_eq!(row(r#"{"file_frame_start":480,"frames":480,"flags":0}"#), Err(RowError::Time));
    assert_eq!(
        row(r#"{"file_frame_start":480,"frames":480,"flags":0,"recorded_time_ns":9223372036854775807}"#),
        Err(RowError::Clock)
    );
    let untimed = r#"{"file_frame_start":480,"frames":480,"flags":4,"recorded_time_ns":null}"#;
    let last = r.row(&json(untimed)).unwrap();
    assert_eq!(last.at, 0);
    r.done(last);
    assert_eq!((r.expected, r.packets), (960, 2));
}

#[test]
fn events_are_merged_in_the_order_of_their_times() {
    assert_eq!(choose_source(Some(5), Some(4), 10), Source::Bootstrap);
    assert_eq!(choose_source(Some(5), Some(5), 10), Source::Log);
    assert_eq!(choose_source(Some(15), Some(20), 10), Source::Neither);
    assert_eq!(choose_source(None, Some(10), 10), Source::Bootstrap);
    let mut r = Reorders::new();
    for at in [5, 3, 6, 6, 1] {
        r.seen(at);
    }
    assert_eq!((r.count, r.latest), (2, 6));
    assert_eq!(event_time(&json(r#"{"receive_time_ns":3}"#)), Ok(3));
    assert_eq!(event_time(&Json::Null), Err(RowError::EventTime));
    assert_eq!(device_position(&json(r#"{"device_position_frames":3}"#)), Ok(3));
    assert_eq!(device_position(&Json::Null), Err(RowError::Device));
}

#[test]
fn observations_are_answers_that_came() {
    let row = |text: &str| observation(&json(text));
    assert!(row(r#"{"http_status":404}"#).unwrap().is_none());
    assert_eq!(row(r#"{"http_status":200}"#).unwrap_err(), RowError::Response);
    assert_eq!(
        row(r#"{"http_status":200,"response_base64":"?"}"#).unwrap_err(),
        RowError::Base64
    );
    assert_eq!(
        row(r#"{"http_status":200,"response_base64":"/w=="}"#).unwrap_err(),
        RowError::Utf8
    );
    let good = r#"{"http_status":200,"response_base64":"e30=","response_end_ns":9,"request_start_ns":4}"#;
    let seen = row(good).unwrap().unwrap();
    assert_eq!((seen.at, seen.request_start, seen.body.as_str()), (9, Some(4), "{}"));
}

#[test]
fn recordings_are_sealed_by_their_digests() {
    let manifest = json(r#"{"files":{"raw/a":"12"}}"#);
    assert!(is_sealed(&manifest, "raw/a", "12"));
    assert!(!is_sealed(&manifest, "raw/a", "13"));
    assert!(!is_sealed(&manifest, "raw/b", "12"));
    let list = |names: &[&str]| names.iter().map(|s| s.to_string()).collect::<Vec<_>>();
    assert!(unchanged(&list(&["1", "2"]), &list(&["1", "2"])));
    assert!(!unchanged(&list(&["1", "2"]), &list(&["1", "3"])));
    assert_eq!(inputs(true).0, ["raw/microphone.wav", "raw/audio.clock.jsonl", "raw/osc.jsonl"]);
    assert_eq!(inputs(true).1, "raw/osc.query-state.json");
    assert_eq!(inputs(false).0[2], "raw/osc.events.jsonl");
    assert_eq!(inputs(false).1, "raw/pose-bootstrap.json");
    assert_eq!(verdict(9, 10, 5, 1, true), Verdict::Unclocked);
    assert_eq!(verdict(10, 10, 5, 5, true), Verdict::Unplaced);
    assert_eq!(verdict(10, 10, 5, 1, false), Verdict::Changed);
    assert_eq!(verdict(10, 10, 5, 1, true), Verdict::Complete);
    assert_eq!((failed_status(true), failed_status(false)), ("cancelled", "failed"));
}
