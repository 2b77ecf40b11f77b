use vsm::json::{parse, Json};
use vsm::obs::{
    has_failed, last_directory, live_config, panel, status_text, Beat, HostEvent, Media, Notice,
    Player, Reaction, Reel, Source,
};
use vsm::studio::{
    choose_folder, ensure_configurable, flag, input_enable, monitor_enable, picked, plain,
    publishes, record_control, rename_recording, reprocess_recording, Flag, Purpose, Refusal,
    Shelf,
};

#[test]
fn recordings_are_announced_and_ended_once() {
    let mut s = Source::new();
    assert_eq!(s.on_event(HostEvent::RecordingStarted, true), Reaction::Nothing);
    assert!(s.configure(false, true));
    assert!(!s.configure(false, true));
    assert_eq!(s.on_event(HostEvent::RecordingStarted, false), Reaction::Nothing);
    assert_eq!(s.on_event(HostEvent::RecordingStarted, true), Reaction::Record);
    assert!(s.record());
    assert!(!s.record() && !s.join(true, true));
    assert_eq!(
        s.on_event(HostEvent::RecordingPaused, true),
        Reaction::Tell(Notice::RecordingPaused)
    );
    assert_eq!(s.deactivated(), Some(Notice::SourceInactive));
    assert_eq!(
        s.on_event(HostEvent::RecordingStopped, true),
        Reaction::Tell(Notice::RecordingStopped)
    );
    assert_eq!(s.on_event(HostEvent::RecordingStopped, true), Reaction::Nothing);
    assert_eq!(s.on_event(HostEvent::RecordingUnpaused, true), Reaction::Nothing);
    assert_eq!(s.deactivated(), None);
    assert_eq!(Notice::RecordingStopping.name(), "recording_stopping");
}

#[test]
fn leaving_hosts_are_ignored() {
    let mut s = Source::new();
    s.configure(true, true);
    assert!(s.activated(true) && s.wants_input(true, false) && !s.wants_input(false, true));
    assert_eq!(s.on_event(HostEvent::FinishedLoading, true), Reaction::Begin);
    assert!(s.join(true, true));
    assert_eq!(s.on_event(HostEvent::SceneCollectionCleanup, true), Reaction::Stop);
    assert!(!s.recording && !s.closing);
    assert!(s.may_start(false, false, "mic") && !s.may_start(true, false, "mic"));
    assert!(!s.may_start(false, false, "") && s.may_start(false, true, ""));
    assert_eq!(s.on_event(HostEvent::Exit, true), Reaction::Stop);
    assert_eq!(s.on_event(HostEvent::RecordingStarted, true), Reaction::Nothing);
    assert!(!s.may_start(false, true, "mic"));
}

#[test]
fn synthetic_sources_come_before_the_settings() {
    let base = parse(r#"{"endpoint_id":"mic","channel":0}"#).unwrap();
    let fixture = parse(r#"{"channel":1,"fixture":true}"#).unwrap();
    let both = live_config(&base, Some(&fixture)).unwrap();
    assert_eq!(both.text_at("endpoint_id").unwrap(), "mic");
    assert_eq!(both.unsigned_at("channel"), Some(1));
    assert!(live_config(&base, Some(&Json::Null)).is_none());
    assert_eq!(live_config(&base, None).unwrap().unsigned_at("channel"), Some(0));
}

#[test]
fn panels_offer_what_can_be_done() {
    let p = panel(true, true, false, true);
    assert!(p.input && p.fields && p.listen);
    assert_eq!((p.start, p.stop, p.reconnect), (None, None, Some(false)));
    let q = panel(false, true, false, false);
    assert!(!q.input && !q.fields);
    assert_eq!((q.start, q.stop, q.reconnect), (Some(false), Some(true), None));
    let info = parse(r#"{"message":"m","archive_error":"e","state":"failed","last_directory":"d"}"#);
    let info = info.unwrap();
    assert_eq!(status_text(&info), "m\ne");
    assert_eq!(status_text(&Json::Null), "入力待機中\n");
    assert!(has_failed(&info) && !has_failed(&Json::Null));
    assert_eq!(last_directory(&info).unwrap(), "d");
    assert!(last_directory(&parse(r#"{"last_directory":""}"#).unwrap()).is_none());
}

#[test]
fn players_follow_their_buttons() {
    let mut p = Player::new();
    assert!(p.pause(false));
    p.start();
    assert_eq!(p.state, Media::Opening);
    assert!(p.opened(96000));
    assert_eq!((p.state, p.duration_ms()), (Media::Playing, 2000));
    assert!(!p.pause(true));
    assert_eq!(p.state, Media::Paused);
    assert!(!p.pause(false));
    p.cursor = 4800;
    assert_eq!(p.time_ms(), 100);
    assert!(p.ended(true));
    assert_eq!(p.state, Media::Ended);
    assert!(p.pause(false));
    p.chosen();
    assert_eq!((p.state, p.duration), (Media::Stopped, 0));
    assert!(!p.opened(5) && !p.ended(false));
    p.start();
    assert!(p.ended(false));
    assert_eq!(p.state, Media::Failed);
}

#[test]
fn replays_keep_time() {
    let mut r = Reel::new(1000);
    assert_eq!(r.beat(false, 1000), Beat::Play(100_001_000));
    assert_eq!(r.played(480, 96000), 0);
    assert_eq!(r.beat(false, 1000), Beat::Wait(5_000_000));
    assert_eq!(r.beat(false, 10_000_999), Beat::Wait(1));
    assert_eq!(r.beat(false, 10_001_000), Beat::Play(110_001_000));
    assert_eq!(r.beat(true, 20_000_000), Beat::Rest);
    assert_eq!(r.beat(false, 20_000_000), Beat::Play(120_000_000));
    assert_eq!(r.beat(false, 270_000_001), Beat::Play(370_000_001));
    assert_eq!(r.played(4800, 96000), 480);
    assert_eq!(r.played(200_000, 96000), 96000);
    assert_eq!((Reel::primed(5280), Reel::primed(100)), (960, 100));
}

#[test]
fn paths_are_shown_plainly() {
    assert_eq!(plain(r"\\?\C:\a"), r"C:\a");
    assert_eq!(plain(r"\\?\UNC\server\a"), r"\\server\a");
    assert_eq!(plain("/home/a"), "/home/a");
}

#[test]
fn only_listed_recordings_are_touched() {
    let mut shelf = Shelf::new("/r");
    assert_eq!(shelf.authorize("/r/a"), Err(Refusal::Unlisted));
    shelf.list("/r/a");
    assert_eq!(shelf.authorize("/r/a"), Ok(()));
    assert_eq!(reprocess_recording(&shelf, "/r/a", true), Err(Refusal::Rendering));
    assert_eq!(reprocess_recording(&shelf, "/r/a", false), Ok(()));
    assert_eq!(reprocess_recording(&shelf, "/r/b", false), Err(Refusal::Unlisted));
    assert_eq!(rename_recording(&shelf, "/r/a", true), Err(Refusal::RenderingRename));
    shelf.renamed("/r/a", "/r/b");
    assert_eq!(rename_recording(&shelf, "/r/a", false), Err(Refusal::Unlisted));
    assert_eq!(rename_recording(&shelf, "/r/b", false), Ok(()));
    assert_eq!(shelf.configure("/r"), Ok(()));
    assert_eq!(shelf.configure("/s"), Err(Refusal::Root));
    shelf.pick("/s");
    assert_eq!(shelf.configure("/s"), Ok(()));
}

#[test]
fn studios_refuse_what_does_not_fit() {
    assert_eq!(ensure_configurable(true), Err(Refusal::Running));
    assert_eq!(choose_folder("recordings", true), Err(Refusal::Running));
    assert_eq!(choose_folder("recordings", false), Ok(Purpose::Recordings));
    assert_eq!(choose_folder("session", true), Ok(Purpose::Session));
    assert_eq!(choose_folder("other", false), Err(Refusal::Purpose));
    assert_eq!(picked(Purpose::Session, false, true), Err(Refusal::NoRecording));
    assert_eq!(picked(Purpose::Session, true, true), Ok(()));
    assert_eq!(picked(Purpose::Recordings, true, true), Err(Refusal::Running));
    assert_eq!(input_enable(true, true, "mic"), Err(Refusal::Running));
    assert_eq!(input_enable(false, false, ""), Err(Refusal::NoMicrophone));
    assert_eq!(input_enable(false, true, ""), Ok(()));
    assert_eq!(record_control(true, None), Err(Refusal::NoInput));
    assert_eq!(record_control(true, Some(false)), Err(Refusal::Stopped));
    assert_eq!(record_control(true, Some(true)), Ok("recording_started"));
    assert_eq!(record_control(false, Some(true)), Ok("recording_stopped"));
    assert_eq!(monitor_enable(true, false), Err(Refusal::NoInput));
    assert_eq!(monitor_enable(false, false), Ok(()));
    assert_eq!(Refusal::Stopped.text(), "入力が停止しています");
    assert_eq!(flag("--settings"), Some(Flag::Settings));
    assert_eq!(flag("--fixture-config"), Some(Flag::FixtureConfig));
    assert_eq!(flag("--steam-audio"), Some(Flag::SteamAudio));
    assert_eq!(flag("--other"), None);
    assert_eq!(publishes(&Json::Null), Some(true));
    assert_eq!(publishes(&parse(r#"{"publish_latest":false}"#).unwrap()), Some(false));
    assert_eq!(publishes(&parse(r#"{"publish_latest":1}"#).unwrap()), None);
}
