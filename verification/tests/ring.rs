use std::sync::Arc;
use vsm::json::parse;
use vsm::queue::Queue;
use vsm::ring::{
    has_room_to_begin, has_room_to_go_on, item_bytes, Archive, BlockNote, End, Item, Job, Kind,
    Note, Packet, Ring, RingError, Take, RING_BYTES,
};

type Jobs = Queue<Job<u32, &'static str>>;

const SECOND: i64 = 1_000_000_000;

fn ring() -> Ring<u32> {
    Ring::new(1f64.to_bits(), SECOND, 0).unwrap()
}

fn item(kind: Kind, retained: i64, payload: u32) -> Arc<Item<u32>> {
    Arc::new(Item { kind, retained, bytes: 10, step: 5, payload })
}

fn command(ring: &mut Ring<u32>, jobs: &mut Jobs, text: &str) -> Result<Note, RingError> {
    ring.command(&parse(text).unwrap(), Arc::new("mark"), 3, jobs)
}

const START: &str = r#"{"event":"recording_started","qpc_ns":2000000000}"#;

#[test]
fn takes_begin_with_the_last_seconds_and_the_checkpoint_behind_them() {
    let mut jobs = Jobs::new(1000);
    let mut r = ring();
    for (kind, at, payload) in [
        (Kind::Checkpoint, 0, 1),
        (Kind::Event, 10, 2),
        (Kind::Audio, 20, 3),
        (Kind::Audio, SECOND, 4),
        (Kind::Output, SECOND + 30, 5),
    ] {
        assert_eq!(r.push(item(kind, at, payload), &mut jobs), Ok(vec![]));
    }
    assert_eq!(r.stats().0, 20);
    assert_eq!(command(&mut r, &mut jobs, START), Ok(Note::Done));
    assert!(r.gain_locked());
    let Some(Job::Begin { id, meta, dropped, baseline, steps, seed }) = jobs.pop() else {
        panic!("no take");
    };
    assert_eq!((id, *meta, dropped), (1, "mark", 0));
    assert_eq!(baseline.unwrap().payload, 1);
    assert_eq!(steps.iter().map(|i| i.payload).collect::<Vec<_>>(), [2]);
    assert_eq!(seed.iter().map(|i| i.payload).collect::<Vec<_>>(), [4, 5]);
}

#[test]
fn takes_go_on_for_half_a_second_after_their_stop() {
    let mut jobs = Jobs::new(1000);
    let mut r = ring();
    assert_eq!(command(&mut r, &mut jobs, START), Ok(Note::Done));
    assert_eq!(command(&mut r, &mut jobs, START), Ok(Note::Done));
    r.push(item(Kind::Audio, 2 * SECOND, 7), &mut jobs).unwrap();
    let stop = r#"{"event":"recording_stopped","qpc_ns":3000000000,"video_path":"v.mp4"}"#;
    assert_eq!(command(&mut r, &mut jobs, stop), Ok(Note::Done));
    assert!(r.gain_locked());
    r.poll(3 * SECOND + 499_999_999, &vec![], &mut jobs);
    assert!(r.gain_locked());
    r.poll(3 * SECOND + 500_000_000, &vec![], &mut jobs);
    assert!(!r.gain_locked());
    assert_eq!(r.stats(), (10, 0, false, 1, 1));
    assert!(matches!(jobs.pop(), Some(Job::Begin { id: 1, .. })));
    assert!(matches!(jobs.pop(), Some(Job::Item(1, _))));
    assert!(matches!(jobs.pop(), Some(Job::Mark(1, _))));
    let Some(Job::End(1, End::Stopped(Some(stop)))) = jobs.pop() else {
        panic!("no end");
    };
    assert_eq!((stop.at_ns, stop.video_path.as_str()), (3 * SECOND, "v.mp4"));
    assert!(jobs.pop().is_none());
}

#[test]
fn takes_that_the_writer_cannot_follow_end_alone() {
    let mut jobs = Jobs::new(15);
    let mut r = ring();
    assert_eq!(command(&mut r, &mut jobs, START), Ok(Note::Done));
    assert_eq!(r.push(item(Kind::Audio, 0, 1), &mut jobs), Ok(vec![]));
    assert_eq!(r.push(item(Kind::Audio, 1, 2), &mut jobs), Ok(vec![1]));
    assert!(!r.gain_locked());
    assert!(matches!(jobs.pop(), Some(Job::Begin { .. })));
    assert!(matches!(jobs.pop(), Some(Job::Item(1, _))));
    assert!(matches!(jobs.pop(), Some(Job::End(1, End::Overflow))));
    let start = command(&mut r, &mut jobs, START);
    assert!(start.is_ok());
    r.poll(0, &vec![2], &mut jobs);
    assert!(!r.gain_locked());
}

#[test]
fn closing_the_ring_ends_every_take() {
    let mut jobs = Jobs::new(1000);
    let mut r = ring();
    command(&mut r, &mut jobs, START).unwrap();
    r.finish("engine_error", &mut jobs);
    jobs.pop();
    let Some(Job::End(1, End::Shutdown { stop: None, failed: true, reason })) = jobs.pop() else {
        panic!("no end");
    };
    assert_eq!(reason, "engine_error");
    assert!(jobs.drained());
}

#[test]
fn rings_are_bounded_in_time_and_size() {
    let mut jobs = Jobs::new(10);
    let mut r = ring();
    for at in 0..3 {
        let big = Arc::new(Item {
            kind: Kind::Audio,
            retained: at,
            bytes: RING_BYTES / 2,
            step: 0,
            payload: 0,
        });
        r.push(big, &mut jobs).unwrap();
    }
    assert_eq!((r.stats().0, r.stats().1), (RING_BYTES, 1));
    let quiet = ring().horizon();
    assert_eq!(quiet, SECOND);
    let refused = |seconds: f64| Ring::<u32>::new(seconds.to_bits(), 0, 0).unwrap_err();
    assert_eq!(refused(30.1), RingError::Duration);
    assert_eq!(refused(-1.), RingError::Duration);
}

#[test]
fn history_behind_a_checkpoint_is_bounded() {
    let mut jobs = Jobs::new(10);
    let mut r = ring();
    let step = |at: i64| {
        Arc::new(Item { kind: Kind::Event, retained: at, bytes: 1, step: 0x50_0000, payload: 0 })
    };
    r.push(item(Kind::Checkpoint, 0, 0), &mut jobs).unwrap();
    r.push(step(1), &mut jobs).unwrap();
    r.push(step(2), &mut jobs).unwrap();
    let late = r.push(item(Kind::Audio, 10 * SECOND, 0), &mut jobs);
    assert_eq!(late, Err(RingError::History));
}

#[test]
fn commands_without_a_time_are_refused() {
    let mut jobs = Jobs::new(100);
    let mut r = ring();
    let timeless = r#"{"event":"recording_started"}"#;
    assert_eq!(command(&mut r, &mut jobs, timeless), Err(RingError::Time));
    assert_eq!(command(&mut r, &mut jobs, r#"{"event":"recording_stopped"}"#), Ok(Note::Done));
    command(&mut r, &mut jobs, START).unwrap();
    assert_eq!(command(&mut r, &mut jobs, r#"{"event":"recording_paused"}"#), Ok(Note::Done));
    jobs.pop();
    assert!(matches!(jobs.pop(), Some(Job::Mark(1, _))));
    let mut closed = Jobs::new(100);
    closed.close();
    assert_eq!(command(&mut ring(), &mut closed, START), Ok(Note::Refused));
}

#[test]
fn takes_count_their_packets_and_blocks() {
    let mut t = Take::new(true);
    assert!(t.checkpoint());
    assert!(t.checkpoint());
    t.bootstrapped();
    assert!(!t.checkpoint());
    assert_eq!(t.output(0), None);
    let p = |file: u64, device: u64, flags: u32| Packet {
        file,
        frames: 480,
        flags,
        device,
        time: file as i64 * 10,
    };
    let first = t.audio(p(1000, 50, 0));
    assert_eq!((first.packet_sequence, first.file_frame_start), (0, 0));
    assert!(!first.engine_frame_gap && !first.device_position_gap);
    let second = t.audio(p(1480, 600, 1));
    assert_eq!((second.packet_sequence, second.file_frame_start), (1, 480));
    assert!(!second.engine_frame_gap && second.device_position_gap);
    let third = t.audio(p(2000, 1080, 4));
    assert!(third.engine_frame_gap && !third.device_position_gap);
    assert_eq!((t.discontinuities, t.bad_times, t.gaps, t.input_frames), (1, 1, 1, 1440));
    assert_eq!(t.output(999), None);
    let note = t.output(1256).unwrap();
    assert_eq!(t.output(1256).unwrap(), note);
    t.put_out(256);
    assert_eq!(note, BlockNote { input_file_frame: 256, output_file_frame: 0 });
    assert_eq!(t.output(1512).unwrap().output_file_frame, 256);
    t.put_out(256);
    assert_eq!(t.preroll_ns(15_000), 5_000);
    assert_eq!(t.preroll_ns(9_000), 0);
    assert!(!Take::new(false).checkpoint());
}

#[test]
fn archives_leave_failed_takes_alone() {
    let mut a = Archive::new();
    a.opened(1);
    a.opened(2);
    assert!(a.acts(1) && a.acts(2) && !a.acts(3));
    assert!(a.settle(1, false, false));
    assert!(!a.acts(1) && a.acts(2));
    assert!(!a.settle(1, true, true));
    assert!(!a.settle(2, true, true));
    assert!(!a.acts(2));
}

#[test]
fn disks_need_room() {
    assert_eq!(item_bytes(7, 100, 3), 410);
    assert!(!has_room_to_begin(0) && has_room_to_begin(u64::MAX));
    assert!(!has_room_to_go_on(0) && has_room_to_go_on(u64::MAX));
}

#[test]
fn rings_go_on_after_their_history_grew_too_long() {
    let mut jobs = Jobs::new(64 << 20);
    let mut r = ring();
    let long = Item { kind: Kind::Event, retained: 1, bytes: 10, step: 9 << 20, payload: 0 };
    r.push(item(Kind::Checkpoint, 0, 1), &mut jobs).unwrap();
    r.push(Arc::new(long), &mut jobs).unwrap();
    assert_eq!(r.push(item(Kind::Audio, 2 * SECOND, 2), &mut jobs), Err(RingError::History));
    assert!(r.has_count(10));
    assert_eq!(r.push(item(Kind::Audio, 2 * SECOND, 3), &mut jobs), Ok(vec![]));
    assert_eq!(command(&mut r, &mut jobs, START), Ok(Note::Done));
    r.poll(0, &vec![], &mut jobs);
    let Some(Job::Begin { seed, .. }) = jobs.pop() else {
        panic!("no take");
    };
    assert_eq!(seed.iter().map(|i| i.payload).collect::<Vec<_>>(), [2, 3]);
    assert!(!r.has_count(usize::MAX));
}
