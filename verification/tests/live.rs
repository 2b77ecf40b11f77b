use vsm::capture::{duration, limit, CaptureError, Fixture};
use vsm::device::{
    stop_reason, usable, Description, DeviceError, Extension, Handover, HandoverError, Microphone,
    Output, OutputError, Watch, FLOAT_SAMPLES,
};
use vsm::engine::{
    fixture_due, gain_action, gain_request, shown_levels, Captured, Faults, GainAction, GainReply,
    GainRequestError, Pace,
};
use vsm::json::parse;
use vsm::monitor::{BadBlock, Monitor};

const PLAIN: Description = Description {
    tag: 3,
    sample_rate_hz: 48000,
    channels: 2,
    container_bits: 32,
    block_align: 8,
    extra: 0,
};

const NOTHING: Extension = Extension { valid_bits: 0, channel_mask: 0, subformat: 0 };

#[test]
fn formats_are_read_from_descriptions() {
    let f = PLAIN.format(NOTHING);
    assert!(f.supported(true) && f.supported(false));
    assert_eq!(f.sample_format(), "float32");
    let wide = Description { tag: 0xfffe, extra: 22, ..PLAIN };
    assert!(wide.extended());
    assert_eq!(wide.format(NOTHING).sample_format(), "unsupported");
    let stereo = Extension { valid_bits: 32, channel_mask: 3, subformat: FLOAT_SAMPLES };
    assert!(wide.format(stereo).supported(true));
    assert!(!wide.format(Extension { channel_mask: 4, ..stereo }).supported(true));
    assert!(!wide.format(Extension { valid_bits: 24, ..stereo }).supported(true));
    let mono = Description { channels: 1, block_align: 4, ..PLAIN };
    assert!(mono.format(NOTHING).supported(false) && !mono.format(NOTHING).supported(true));
    let slow = Description { sample_rate_hz: 44100, ..PLAIN }.format(NOTHING);
    let f = PLAIN.format(NOTHING);
    assert_eq!(usable("", false, false, f), Err(DeviceError::Unchosen));
    assert_eq!(usable("mic", false, true, f), Err(DeviceError::Direction));
    assert_eq!(usable("mic", false, false, slow), Err(DeviceError::Format));
    assert_eq!(usable("mic", false, false, f), Ok(()));
}

#[test]
fn microphones_hand_their_packets_over() {
    let mut m = Microphone { channels: 1, origin: 500, first: 10 };
    let h = Handover { frames: 2, flags: 0, device: 7, qpc: 60 };
    let mut bytes = 0.5f32.to_le_bytes().to_vec();
    bytes.extend_from_slice(&(-1f32).to_le_bytes());
    let p = m.hand_over(h, Some(&bytes)).unwrap();
    assert_eq!(p.samples, [0.5f32.to_bits(), (-1f32).to_bits()]);
    assert_eq!((p.file, p.device, p.time, p.frames), (10, 7, 5500, 2));
    let silent = m.hand_over(Handover { flags: 2, ..h }, None).unwrap();
    assert_eq!((silent.samples, silent.file), (vec![0, 0], 12));
    let refused = |m: &mut Microphone, h: Handover| m.hand_over(h, None).unwrap_err();
    assert_eq!(refused(&mut m, h), HandoverError::Missing);
    let long = Handover { frames: 480001, ..h };
    assert_eq!(refused(&mut m, long), HandoverError::TooLong);
    let late = Handover { flags: 2, qpc: u64::MAX, ..h };
    assert_eq!(refused(&mut m, late), HandoverError::Clock);
    assert_eq!(m.first, 14);
    let mut w = Watch { last: 0 };
    assert!(w.heard(0, 2_999_999_999));
    assert!(w.heard(1, 2_999_999_999));
    assert!(!w.heard(0, 5_999_999_999));
    assert_eq!((stop_reason(true), stop_reason(false)), ("cancelled", "duration_limit"));
}

#[test]
fn outputs_know_what_fits() {
    assert_eq!(Output::open(0).unwrap_err(), DeviceError::Buffer);
    assert_eq!(Output::open(48001).unwrap_err(), DeviceError::Buffer);
    let o = Output::open(480).unwrap();
    assert_eq!(o.wait(48, 5), Ok((432, 1_000_005)));
    assert_eq!(o.wait(481, 5), Err(OutputError::Padding));
    assert_eq!(o.write(960), Ok(480));
    assert_eq!(o.write(961), Err(OutputError::Block));
    assert_eq!(o.write(962), Err(OutputError::Block));
}

#[test]
fn captures_last_as_long_as_they_are_told() {
    assert_eq!(duration(0f64.to_bits()), Ok(true));
    assert_eq!(duration(2.5f64.to_bits()), Ok(false));
    assert_eq!(duration(86401f64.to_bits()), Err(CaptureError::Duration));
    assert_eq!(duration((-1f64).to_bits()), Err(CaptureError::Duration));
    assert_eq!(limit(false, 100, None), 100);
    assert_eq!(limit(false, 100, Some(7)), 7);
    assert_eq!(limit(true, 100, None), i64::MAX as u64 / 8);
}

#[test]
fn fixtures_show_their_faults() {
    let mut f = Fixture {
        origin: 1000,
        offset: 0,
        limit: 2000,
        faults: true,
        fail_after: Some(1920),
        first: 0,
    };
    let mut seen = Vec::new();
    while let Some(due) = f.next() {
        let Ok(stamp) = f.stamp() else {
            break;
        };
        assert_eq!(stamp.first, f.first);
        seen.push((stamp.flags, stamp.device, stamp.qpc == 0));
        f.advance(due.count);
    }
    assert_eq!(seen, [(0, 0, false), (2, 480, false), (1, 1440, false), (4, 1920, true)]);
    assert_eq!(f.stamp(), Err(CaptureError::Injected));
    assert!(!f.is_over());
    let plain = Fixture { faults: false, fail_after: None, first: 1920, ..f };
    assert_eq!(plain.next().unwrap().count, 80);
    assert_eq!(plain.next().unwrap().at, 1000 + 2000 * 1_000_000_000 / 48000);
}

#[test]
fn fixtures_may_begin_before_the_clock() {
    let f = Fixture {
        origin: 1000,
        offset: -2000,
        limit: 480,
        faults: false,
        fail_after: None,
        first: 0,
    };
    assert!(f.can_tell());
    let stamp = f.stamp().unwrap();
    assert_eq!((stamp.qpc, stamp.time), (-10i64 as u64, -2000));
    assert_eq!(f.next().unwrap().at, -1000 + 10_000_000);
    assert!(!Fixture { offset: i64::MAX, ..f }.can_tell());
}

#[test]
fn packets_wait_for_their_events() {
    let mut p = Pace::new();
    assert!(p.wants());
    let first = p.turn(0, false);
    assert!(first.checkpoint && first.show && !first.process && !first.end);
    p.captured(Captured::Packet(50));
    assert!(!p.wants());
    assert!(p.turn(100_000_049, false).rest);
    assert!(p.turn(100_000_050, false).process);
    p.captured(Captured::Packet(200_000_000));
    assert!(p.turn(200_000_000, true).process);
    p.captured(Captured::Done);
    assert!(p.turn(200_000_001, false).end);
}

#[test]
fn gain_is_changed_only_while_nothing_is_recorded() {
    assert_eq!(gain_action(true, true, false), GainAction::Ignore);
    assert_eq!(gain_action(false, true, true), GainAction::Refuse);
    assert_eq!(gain_action(false, true, false), GainAction::Apply);
    let low = (-6f64).to_bits();
    assert_eq!(gain_request(low, false, false), Ok(()));
    assert_eq!(gain_request(1f64.to_bits(), false, false), Err(GainRequestError::Range));
    assert_eq!(gain_request(low, true, false), Err(GainRequestError::Stopped));
    let mut r = GainReply::new();
    assert_eq!(r.decide(true, false), GainAction::Apply);
    r.answer(true);
    assert_eq!(r.collect(), Some(true));
    let mut unanswered = GainReply::new();
    assert_eq!(unanswered.collect(), None);
    assert_eq!(unanswered.decide(true, false), GainAction::Ignore);
}

#[test]
fn the_first_fault_is_kept() {
    let mut f = Faults::new(None);
    assert_eq!(f.outcome().0, "stopped");
    f.note(Err("a"));
    f.note(Err("b"));
    f.note(Ok(()));
    assert_eq!(f.outcome().0, "failed");
    assert_eq!(f.into_first(), Some("a"));
    assert_eq!(shown_levels([1, 2, 3], false, false), [1, 2, 3]);
    assert_eq!(shown_levels([1, 2, 3], true, false), [0; 3]);
    assert!(fixture_due(&parse(r#"{"receive_time_ns":5}"#).unwrap(), 5));
    assert!(!fixture_due(&parse(r#"{"receive_time_ns":6}"#).unwrap(), 5));
}

#[test]
fn monitors_play_blocks_at_their_times() {
    let mut m = Monitor::new();
    assert_eq!(m.push(&[1], 0), Err(BadBlock));
    m.push(&[1, 2, 3, 4], 1_000_000).unwrap();
    let out = m.fill(50, 0);
    assert_eq!(out.len(), 100);
    assert!(out[..96].iter().all(|v| *v == 0));
    assert_eq!(out[96..], [1, 2, 3, 4]);
    assert_eq!(m.counts().2, 0);
    m.push(&[5, 6], 0).unwrap();
    let late = m.fill(1, 500_000_000);
    assert_eq!(late, [0, 0]);
    for _ in 0..3 {
        m.push(&vec![7; 48000], 600_000_000).unwrap();
    }
    assert_eq!(m.counts().2, 48000);
}
