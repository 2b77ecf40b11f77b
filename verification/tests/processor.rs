use vsm::codec::encode;
use vsm::json::{parse, Json};
use vsm::osc::Message;
use vsm::pipeline::{gain_db, Due, DueError, Processor, SetupError};
use vsm::pose::{PoseError, SourceModel};
use vsm::processor::{
    block_time, history, is_checkpoint, messages, next_step, pending, retained, AudioPacket, Event,
    EventError, GainError, Mixer, Outcome, PacketError, RestoreError, Step, TimelineError,
};

fn linear(db: u64) -> u64 {
    10f64.powf(f64::from_bits(db) / 20.).to_bits()
}

fn decibels(gain: u64) -> f64 {
    20. * f64::from_bits(gain).log10()
}

fn close(value: f64, expected: f64) {
    assert!((value - expected).abs() < 1e-6, "{value} != {expected}");
}

fn packet(frame: u64) -> AudioPacket {
    AudioPacket {
        samples: vec![0; 512],
        frames: 256,
        channels: 2,
        flags: 0,
        device: frame,
        file: frame,
        time: (frame * 1_000_000_000 / 48000) as i64,
    }
}

fn processor(config: &str) -> Processor<String> {
    let json = parse(config).unwrap();
    let gain = linear(gain_db(&json));
    Processor::new(&json, 0, gain).unwrap()
}

fn tell(p: &mut Processor<String>, row: &str) -> Result<(), TimelineError> {
    p.event(&parse(row).unwrap(), row.to_owned())
}

/// Processes one packet without a position, as far as the gain goes.
fn push(p: &mut Processor<String>, frame: u64) -> Vec<Outcome> {
    let blocks = p.push(&packet(frame), 0).unwrap();
    let mut out = Vec::new();
    for block in blocks.list {
        let at = p.begin(block.first);
        loop {
            match p.due(at).unwrap() {
                Due::Ready => break,
                Due::Gain(db) => p.mixer.change_gain(linear(db)),
                Due::Passed | Due::Feed(_) => {}
            }
        }
        let model = SourceModel::HeadOffset;
        let plan = p.mixer.plan(false, model, &block.mono);
        out.push(p.mixer.settle(plan, false, model, block.valid, at, None));
    }
    out
}

fn checkpoint(p: &Processor<String>) -> (Json, Vec<String>) {
    let rows = (0..p.timeline.len()).map(|i| p.timeline.entry(i).item.1.clone()).collect();
    let events: Vec<String> = (0..p.timeline.len())
        .map(|i| {
            let entry = p.timeline.entry(i);
            format!(r#"{{"effective_time_ns":{},"event":{}}}"#, entry.time, entry.item.1)
        })
        .collect();
    let text = format!(
        r#"{{"kind":"derived_processor_checkpoint","pending_events":[{}],"last_source_time_ns":{},"gain_db":{:?},"applied_gain":{:?}}}"#,
        events.join(","),
        p.timeline.last_source(),
        decibels(p.mixer.gain),
        f64::from_bits(p.mixer.applied_gain),
    );
    (parse(&text).unwrap(), rows)
}

fn restore(p: &mut Processor<String>, (state, rows): &(Json, Vec<String>)) {
    is_checkpoint(p.assembler.is_started(), state).unwrap();
    let db = state.bits_at("gain_db");
    p.mixer.restore_gain(db, db.map_or(0, linear), state.bits_at("applied_gain")).unwrap();
    p.timeline.set_last_source(state.signed_at("last_source_time_ns").unwrap());
    for ((time, event), row) in pending(state).unwrap().into_iter().zip(rows) {
        p.timeline.insert(time, event, row.clone());
    }
    assert!(history(state).unwrap().is_none());
}

#[test]
fn gain_events_checkpoints_and_override() {
    let config = r#"{"gain_db":-30.0}"#;
    let mut p = processor(config);
    tell(&mut p, r#"{"kind":"gain_change","gain_db":-6.0,"receive_time_ns":5000000}"#).unwrap();
    close(decibels(push(&mut p, 0)[0].gain), -30.);
    let state = checkpoint(&p);
    let mut q = processor("{}");
    restore(&mut q, &state);
    close(f64::from_bits(checkpoint(&q).0.bits_at("gain_db").unwrap()), -30.);
    let changed = push(&mut q, 256);
    close(decibels(changed[0].gain), -6.);
    close(f64::from_bits(changed[0].gain_from), 10f64.powf(-30. / 20.));
    let mut restored = processor(config);
    restore(&mut restored, &checkpoint(&q));
    close(decibels(push(&mut restored, 512)[0].gain), -6.);
    let mut fixed = processor(config);
    let db = (-18f64).to_bits();
    fixed.mixer.override_gain(db, linear(db)).unwrap();
    restore(&mut fixed, &state);
    close(decibels(push(&mut fixed, 256)[0].gain), -18.);
}

#[test]
fn processors_are_set_up_from_their_settings() {
    let refused = |text: &str| Processor::<()>::new(&parse(text).unwrap(), 0, 0).unwrap_err();
    close(f64::from_bits(gain_db(&Json::Null)), -18.);
    assert_eq!(refused(r#"{"gain_db":1}"#), SetupError::Gain);
    assert_eq!(refused(r#"{"mouth_offset_m":[0]}"#), SetupError::Offset);
    assert_eq!(refused(r#"{"mouth_offset_m":[0,0,2]}"#), SetupError::Pose(PoseError::Offset));
    assert_eq!(refused(r#"{"source_mode":"x"}"#), SetupError::Pose(PoseError::Mode));
}

#[test]
fn blocks_follow_each_other_over_packets() {
    let mut p = processor("{}");
    let mut device = 0;
    let mut odd = |file: u64, frames: u32, flags: u32| {
        let samples = (0..frames).map(|i| file as u32 + i).collect();
        let a = AudioPacket {
            samples,
            frames,
            channels: 1,
            flags,
            device,
            file,
            time: 0,
        };
        device += frames as u64;
        p.push(&a, 0)
    };
    assert_eq!(odd(0, 200, 0).unwrap().list.len(), 0);
    let blocks = odd(200, 400, 0).unwrap();
    assert!(!blocks.reset);
    assert_eq!(blocks.list.iter().map(|b| b.first).collect::<Vec<_>>(), [0, 256]);
    assert_eq!(blocks.list[1].mono, (256..512).collect::<Vec<u32>>());
    let cut = odd(600, 10, 1).unwrap();
    assert!(cut.reset && cut.list.is_empty());
    assert!(odd(610, 10, 4).unwrap().reset);
    assert_eq!(odd(620, 100, 0).unwrap().list.len(), 0);
    assert_eq!(odd(800, 1, 0).unwrap_err(), PacketError::Discontinuity);
    let last = p.finish().unwrap();
    assert_eq!((last.first, last.valid, last.mono.len(), last.mono[100]), (620, 100, 256, 0));
    assert_eq!(p.assembler.losses(), (2, 88 + 10 + 10));
    assert!(p.finish().is_none());
    assert_eq!(p.push(&packet(0), 0).unwrap_err(), PacketError::Finished);
}

#[test]
fn audio_packets_are_refused_for_what_is_wrong_with_them() {
    let mut p = processor("{}");
    assert_eq!(p.push(&packet(0), 2).unwrap_err(), PacketError::Channel);
    let mut short = packet(0);
    short.samples.pop();
    assert_eq!(p.push(&short, 0).unwrap_err(), PacketError::Length);
    p.push(&packet(0), 0).unwrap();
    assert_eq!(p.push(&packet(256), 1).unwrap_err(), PacketError::Format);
}

#[test]
fn events_wait_for_their_time_and_never_change_the_past() {
    let mut p = processor("{}");
    p.begin(48000);
    let at = p.timeline.last_source();
    assert_eq!(at, 1_000_000_000);
    tell(&mut p, r#"{"kind":"gain_change","gain_db":-6.0,"receive_time_ns":5}"#).unwrap();
    tell(&mut p, r#"{"kind":"gain_change","gain_db":-7.0,"receive_time_ns":2000000000}"#).unwrap();
    assert_eq!(p.timeline.entry(0).time, at + 1);
    assert!(matches!(p.due(at), Ok(Due::Ready)));
    assert!(matches!(p.due(at + 1), Ok(Due::Gain(_))));
    assert!(matches!(p.due(at + 1), Ok(Due::Ready)));
    p.mixer.gain_override = true;
    assert!(matches!(p.due(2_000_000_000), Ok(Due::Passed)));
    let refused = |p: &mut Processor<String>, row: &str| tell(p, row).unwrap_err();
    assert_eq!(refused(&mut p, r#"{"kind":"udp"}"#), TimelineError::Time);
    let loud = r#"{"kind":"gain_change","gain_db":1.0,"receive_time_ns":5}"#;
    assert_eq!(refused(&mut p, loud), TimelineError::Gain);
    tell(&mut p, r#"{"kind":"other","receive_time_ns":5}"#).unwrap();
    assert_eq!(p.timeline.len(), 0);
    p.timeline.insert(0, Event::Gain(None), String::new());
    p.mixer.gain_override = false;
    assert_eq!(p.due(0).unwrap_err(), DueError::Gain);
}

fn read(row: &str) -> Result<Vec<Message>, EventError> {
    messages(&parse(row).unwrap())
}

#[test]
fn kept_datagrams_are_replayed() {
    let datagram = b"/a\0\0,T\0\0";
    let text = retained(datagram);
    assert_eq!(text, encode(datagram));
    let list = read(&format!(r#"{{"kind":"udp","datagram_base64":"{text}"}}"#)).unwrap();
    assert_eq!((list.len(), list[0].address.as_str()), (1, "/a"));
    let mut p = processor("{}");
    let row = format!(r#"{{"kind":"udp","receive_time_ns":7,"datagram_base64":"{text}"}}"#);
    tell(&mut p, &row).unwrap();
    let Ok(Due::Feed(batch)) = p.due(7) else {
        panic!("nothing is fed");
    };
    assert_eq!((batch.at, batch.snapshot, batch.messages.len()), (7, false, 1));
}

#[test]
fn snapshots_are_read_by_their_type() {
    let row = |address: &str, body: &str| {
        let quoted = body.replace('"', "\\\"");
        format!(r#"{{"kind":"snapshot","address":"{address}","body":"{quoted}"}}"#)
    };
    let scale = "/avatar/parameters/ScaleFactor";
    let body = |kind: &str, access: u32, value: &str| {
        format!(
            r#"{{"FULL_PATH":"{scale}","TYPE":"{kind}","ACCESS":{access},"VALUE":{value}}}"#
        )
    };
    let list = read(&row(scale, &body("f", 1, "[1.5]"))).unwrap();
    assert_eq!(list[0].typetag, ",f");
    assert_eq!(list[0].values[0].bits(), Some(1.5f64.to_bits()));
    let refused = |text: &str| read(text).unwrap_err();
    assert_eq!(refused(&row(scale, &body("f", 2, "[1.5]"))), EventError::Response);
    assert_eq!(refused(&row(scale, &body("i", 1, "[1.5]"))), EventError::Response);
    assert_eq!(refused(&row(scale, &body("f", 1, "1.5"))), EventError::Values);
    assert_eq!(refused(&row(scale, &body("f", 1, "[1,2]"))), EventError::Scalar);
    assert_eq!(refused(&row(scale, &body("f", 1, "[true]"))), EventError::Number);
    assert_eq!(refused(&row("/unknown", "{}")), EventError::UnknownAddress);
    assert_eq!(refused(&row(scale, "{")), EventError::Json);
    assert_eq!(refused(r#"{"kind":"snapshot"}"#), EventError::Body);
    assert_eq!(refused(r#"{"kind":"snapshot","body":"{}"}"#), EventError::Address);
    assert_eq!(refused(r#"{"kind":"udp"}"#), EventError::Datagram);
    assert_eq!(refused(r#"{"kind":"udp","datagram_base64":"?"}"#), EventError::Base64);
    assert!(matches!(
        refused(r#"{"kind":"udp","datagram_base64":""}"#),
        EventError::Packet(_)
    ));
    assert_eq!(refused("{}"), EventError::Kind);
}

#[test]
fn blocks_are_placed_at_the_time_of_their_first_frame() {
    assert_eq!(block_time(1000, 480, 480 + 48, 0), 1_001_000);
    assert_eq!(block_time(1_000_000, 480, 432, 0), 0 + 1);
    assert_eq!(block_time(2_000_000, 480, 432, 0), 1_000_000);
    assert_eq!(block_time(1000, 480, 480, 5000), 5001);
}

#[test]
fn blocks_are_counted_by_their_source() {
    let mut m = Mixer::new(100, (-18f64).to_bits(), linear((-18f64).to_bits())).unwrap();
    let sound = vec![0.5f32.to_bits(); 256];
    let plan = m.plan(true, SourceModel::MouthProbe, &sound);
    assert!(plan.ready && plan.reset);
    let out = m.settle(plan, true, SourceModel::MouthProbe, 256, 10, Some(300_000_110 - 25_000_000));
    assert!(out.ready && !out.late && !out.refused);
    assert_eq!((out.timestamp, out.output_file_frame), (300_000_110, 0));
    let plan = m.plan(true, SourceModel::MouthProbe, &sound);
    assert!(plan.ready && !plan.reset);
    let out = m.settle(plan, false, SourceModel::MouthProbe, 256, 10, Some(300_000_111 - 25_000_000));
    assert!(!out.ready && out.late && out.refused);
    let plan = m.plan(true, SourceModel::HeadOffset, &vec![f32::NAN.to_bits()]);
    assert!(!plan.ready);
    m.settle(plan, false, SourceModel::Unsupported, 10, 11, None);
    assert_eq!((m.out_frames, m.muted, m.late), (522, 266, 1));
    assert_eq!((m.mouth_frames, m.head_frames, m.unsupported_frames), (512, 0, 10));
    m.cut();
    assert!(!m.was_valid);
    assert_eq!(Mixer::new(0, 1f64.to_bits(), 0).unwrap_err(), GainError::Gain);
    assert_eq!(m.override_gain(f64::NAN.to_bits(), 0), Err(GainError::Gain));
    assert_eq!(m.restore_gain(Some(0), 0, Some(2f64.to_bits())), Err(GainError::Applied));
}

#[test]
fn checkpoints_are_checked_before_they_are_used() {
    let state = |text: &str| parse(text).unwrap();
    assert_eq!(is_checkpoint(false, &Json::Null), Err(RestoreError::Checkpoint));
    let good = state(r#"{"kind":"derived_processor_checkpoint"}"#);
    assert_eq!(is_checkpoint(true, &good), Err(RestoreError::Checkpoint));
    assert_eq!(is_checkpoint(false, &good), Ok(()));
    assert_eq!(pending(&good).unwrap_err(), RestoreError::Events);
    let timeless = state(r#"{"pending_events":[{}]}"#);
    assert_eq!(pending(&timeless).unwrap_err(), RestoreError::EventTime);
    let odd = state(r#"{"replay_steps_before_ring":1}"#);
    assert_eq!(history(&odd).unwrap_err(), RestoreError::History);
    let step = |text: &str| next_step(&parse(text).unwrap(), 10);
    assert_eq!(step(r#"{"kind":"event"}"#), Ok(Step::Event));
    assert_eq!(step(r#"{"kind":"pose_eval","source_time_ns":11}"#), Ok(Step::Evaluate(11)));
    assert_eq!(step(r#"{"kind":"pose_eval","source_time_ns":10}"#), Ok(Step::Skip));
    assert_eq!(step(r#"{"kind":"pose_eval"}"#), Err(RestoreError::StepTime));
    assert_eq!(step("{}"), Err(RestoreError::Step));
}

fn long_packet(file: u64, flags: u32, time: i64) -> AudioPacket {
    AudioPacket { samples: vec![0; 600], frames: 600, channels: 1, flags, device: file, file, time }
}

#[test]
fn new_processors_take_packets_and_finished_ones_keep_their_place() {
    let mut p = processor("{}");
    assert_eq!(p.assembler.packet(), (0, 0));
    assert_eq!(p.push(&long_packet(1000, 0, 5), 0).unwrap().list.len(), 2);
    let last = p.finish().unwrap();
    assert_eq!((last.first, last.valid), (1512, 88));
    assert_eq!(p.assembler.packet(), (5, 1000));
    assert_eq!(p.push(&long_packet(1600, 0, 6), 0).unwrap_err(), PacketError::Finished);
    assert!(p.finish().is_none());
}

#[test]
fn packets_end_with_the_block_that_fails() {
    let mut p = processor("{}");
    let blocks = p.push(&long_packet(0, 0, 0), 0).unwrap();
    p.stop(blocks.list[0].first);
    assert_eq!(p.push(&long_packet(600, 0, 0), 0).unwrap_err(), PacketError::Discontinuity);
    let mut q = processor("{}");
    q.push(&packet(0), 0).unwrap();
    q.stop(0);
    assert!(q.push(&packet(256), 0).is_ok());
}

#[test]
fn times_that_cannot_be_trusted_make_no_difference() {
    let run = |time: i64| {
        let mut p = processor("{}");
        let mut out = Vec::new();
        for i in 0..4u64 {
            let (flags, time) = if i == 2 { (4, time) } else { (0, i as i64) };
            for b in p.push(&long_packet(600 * i, flags, time), 0).unwrap().list {
                out.push((b.first, b.valid, b.mono));
            }
        }
        (out, p.assembler.losses(), p.assembler.packet())
    };
    assert_eq!(run(12345), run(0));
    assert_eq!(run(0).1, (1, 776));
}

#[test]
fn frames_of_a_recording_are_accounted_for() {
    let mut p = processor("{}");
    let mut valid = 0;
    for i in 0..200u64 {
        let flags = if i == 80 { 4 } else { 0 };
        let packet = AudioPacket {
            samples: vec![0; 480],
            frames: 480,
            channels: 1,
            flags,
            device: i * 480,
            file: i * 480,
            time: i as i64 * 10_000_000,
        };
        valid += p.push(&packet, 0).unwrap().list.iter().map(|b| b.valid).sum::<usize>();
    }
    valid += p.finish().unwrap().valid;
    assert_eq!(valid, 95520);
    assert_eq!(p.assembler.losses(), (1, 480));
}

#[test]
fn blocks_are_placed_where_their_time_can_be_told() {
    let mut p = processor("{}");
    p.push(&long_packet(0, 0, i64::MAX - 10_000_000), 0).unwrap();
    assert!(!p.can_begin(256));
    let mut q = processor("{}");
    q.push(&long_packet(0, 0, i64::MAX / 2), 0).unwrap();
    assert!(q.can_begin(256));
    assert_eq!(q.begin(0), i64::MAX / 2);
    q.timeline.set_last_source(i64::MAX);
    assert!(!q.can_begin(256));
}
