//! The processor as a whole: events wait for their time, packets are cut into blocks,
//! and each block is placed, mixed and counted. Positions and the filter are computed
//! outside, between one step and the next.
use crate::bits;
use crate::bits::gain as is_gain;
use crate::json::{Json, Tree};
use crate::math;
use crate::math::Vec3;
use crate::osc::Message;
use crate::pose;
use crate::pose::{LivePose, PoseError};
use crate::processor;
use crate::processor::{
    block_time, has_time, Assembler, AudioPacket, Block, Blocks, Event, Line, Mixer, PacketError,
    Timeline, TimelineError, DELIVERY_NS, READY_NS,
};
use crate::session::{DEFAULT_FRONT, DEFAULT_GAIN, DEFAULT_UP};
use crate::session;
use vstd::prelude::*;

verus! {

/// Why there is no processor.
#[derive(Clone, Copy, PartialEq, Eq, Structural, Debug)]
pub enum SetupError {
    /// The gain is not between -60 and 0 decibels.
    Gain,
    /// The offset of the mouth is not three numbers.
    Offset,
    Pose(PoseError),
}

/// The gain that is asked for, in decibels.
pub open spec fn gain_asked(config: Tree) -> u64 {
    match config.bits_at("gain_db"@) {
        Some(db) => db,
        None => DEFAULT_GAIN,
    }
}

/// The offset of the mouth that is asked for.
pub open spec fn offset_asked(config: Tree) -> Option<Vec3> {
    match config.get("mouth_offset_m"@) {
        Some(t) => math::vec3_in(t),
        None => Some(session::default_offset()),
    }
}

/// The source of the position that is asked for.
pub open spec fn mode_asked(config: Tree) -> Seq<char> {
    match config.text_at("source_mode"@) {
        Some(name) => name,
        None => "auto"@,
    }
}

/// What stands against a processor.
pub open spec fn setup_fault(config: Tree) -> Option<SetupError> {
    if !bits::down_to_minus(gain_asked(config), bits::SIXTY) {
        Some(SetupError::Gain)
    } else if offset_asked(config) is None {
        Some(SetupError::Offset)
    } else if !offset_asked(config)->0.is_within_one() {
        Some(SetupError::Pose(PoseError::Offset))
    } else if pose::mode_named(mode_asked(config)) is None {
        Some(SetupError::Pose(PoseError::Mode))
    } else {
        None
    }
}

/// The gain that is asked for, in decibels.
pub fn gain_db(config: &Json) -> (res: u64)
    ensures
        res == gain_asked(config@),
{
    match config.bits_at("gain_db") {
        Some(db) => db,
        None => DEFAULT_GAIN,
    }
}

/// What is fed to the pose at once.
#[derive(Debug)]
pub struct Batch {
    pub at: i64,
    pub snapshot: bool,
    pub request_start: i64,
    pub messages: Vec<Message>,
}

/// What comes next on the way to the position at a time.
#[derive(Debug)]
pub enum Due {
    /// Nothing more: the position can be looked at.
    Ready,
    /// An event that changes nothing has passed.
    Passed,
    /// The gain becomes so many decibels.
    Gain(u64),
    /// Messages are fed to the pose.
    Feed(Batch),
}

/// Why an event that was due cannot be applied: what it needs is missing.
#[derive(Clone, Copy, PartialEq, Eq, Structural, Debug)]
pub enum DueError {
    Gain,
    Messages,
    Time,
}

/// What an event that is due comes to.
pub open spec fn comes_to(event: Event, overridden: bool, res: Result<Due, DueError>) -> bool {
    match event {
        Event::Gain(db) => if overridden {
            res matches Ok(Due::Passed)
        } else {
            match db {
                Some(db) => res == Ok::<_, DueError>(Due::Gain(db)),
                None => res == Err::<Due, _>(DueError::Gain),
            }
        },
        Event::Pose { at, snapshot, request_start, messages } => match messages {
            None => res == Err::<Due, _>(DueError::Messages),
            Some(messages) => match at {
                None => res == Err::<Due, _>(DueError::Time),
                Some(at) => res == Ok::<_, DueError>(
                    Due::Feed(Batch { at, snapshot, request_start, messages }),
                ),
            },
        },
    }
}

/// The time of a block that begins at a frame, and that of its delivery, are times.
pub open spec fn can_place(l: Line, taken: i64, origin: i64, first: u64) -> bool {
    let at = processor::source_time(l.packet_time, l.packet_frame, first, taken);
    &&& taken < i64::MAX
    &&& processor::frame_time(l.packet_time, l.packet_frame, first) <= i64::MAX
    &&& i64::MIN <= origin + at <= i64::MAX
    &&& i64::MIN + READY_NS <= origin + at + DELIVERY_NS <= i64::MAX
}

/// The processor of a recording; `R` is what is kept of a row beside its event.
#[derive(Debug)]
pub struct Processor<R> {
    pub pose: LivePose,
    pub timeline: Timeline<R>,
    pub assembler: Assembler,
    pub mixer: Mixer,
}

impl<R> Processor<R> {
    pub open spec fn wf(&self) -> bool {
        self.pose.wf() && self.timeline.wf() && self.assembler.wf() && self.mixer.wf()
    }

    /// A processor for a session that began at a time; `gain` is the gain that is asked
    /// for in linear terms.
    pub fn new(config: &Json, origin: i64, gain: u64) -> (res: Result<Processor<R>, SetupError>)
        ensures
            setup_fault(config@) matches Some(e) ==> res == Err::<Processor<R>, _>(e),
            setup_fault(config@) is None ==> (res matches Ok(p) && p.wf() && p.pose@ == pose::fresh(
                offset_asked(config@)->0,
                pose::mode_named(mode_asked(config@))->0,
            ) && p.timeline.waiting().len() == 0 && p.timeline.taken() == -1 && p.timeline.next()
                == 0 && p.assembler@ == processor::no_audio() && p.mixer == processor::unmixed(
                origin,
                gain,
            )),
    {
        let db: u64 = gain_db(config);
        if !is_gain(db) {
            return Err(SetupError::Gain);
        }
        let offset = match config.get("mouth_offset_m") {
            Some(json) => match math::vec3(json) {
                Some(offset) => offset,
                None => {
                    return Err(SetupError::Offset);
                },
            },
            None => Vec3 { x: 0, y: DEFAULT_UP, z: DEFAULT_FRONT },
        };
        let pose = match config.text_at("source_mode") {
            Some(name) => LivePose::new(offset, name.as_str()),
            None => LivePose::new(offset, "auto"),
        };
        let pose = match pose {
            Ok(pose) => pose,
            Err(e) => {
                return Err(SetupError::Pose(e));
            },
        };
        match Mixer::new(origin, db, gain) {
            Ok(mixer) => Ok(
                Processor { pose, timeline: Timeline::new(), assembler: Assembler::new(), mixer },
            ),
            Err(_) => Err(SetupError::Gain),
        }
    }

    /// Takes in a row of events.
    pub fn event(&mut self, document: &Json, row: R) -> (res: Result<(), TimelineError>)
        requires
            old(self).wf(),
            old(self).timeline.next() < u64::MAX,
            old(self).timeline.taken() < i64::MAX,
        ensures
            final(self).wf(),
            processor::took_event(old(self).timeline, final(self).timeline, document@, row, res),
            final(self).timeline.taken() == old(self).timeline.taken(),
            final(self).pose == old(self).pose,
            final(self).assembler == old(self).assembler,
            final(self).mixer == old(self).mixer,
    {
        self.timeline.event(document, row)
    }

    /// Takes in a packet of audio and gives the blocks that it fills. Where the audio
    /// was cut, what comes next does not follow what came before.
    pub fn push(&mut self, a: &AudioPacket, channel: usize) -> (res: Result<Blocks, PacketError>)
        requires
            old(self).wf(),
            a.file + a.frames <= u64::MAX,
            a.device + a.frames <= u64::MAX,
            old(self).assembler@.discarded + 256 + a.frames <= u64::MAX,
            old(self).assembler@.discontinuities < u64::MAX,
        ensures
            final(self).wf(),
            processor::took_packet(
                old(self).assembler@,
                final(self).assembler@,
                *a,
                channel,
                res,
            ),
            final(self).mixer == (if processor::unfit(old(self).assembler@, *a, channel) is None
                && processor::is_cut(old(self).assembler@, *a) {
                Mixer { was_valid: false, ..old(self).mixer }
            } else {
                old(self).mixer
            }),
            final(self).pose == old(self).pose,
            final(self).timeline == old(self).timeline,
    {
        let res = self.assembler.push(a, channel);
        if let Ok(blocks) = &res {
            if blocks.reset {
                self.mixer.cut();
            }
        }
        res
    }

    /// Ends the recording; gives the last block, if there is one.
    pub fn finish(&mut self) -> (res: Option<Block>)
        requires
            old(self).wf(),
        ensures
            final(self).wf(),
            res is Some <==> !old(self).assembler@.finished && old(self).assembler@.pending.len()
                > 0,
            res matches Some(b) ==> b.first == old(self).assembler@.next_frame - old(
                self,
            ).assembler@.pending.len() && b.valid == old(self).assembler@.pending.len() && b.mono@
                == processor::padded(old(self).assembler@.pending),
            final(self).assembler@ == processor::over(old(self).assembler@),
            final(self).mixer == old(self).mixer,
            final(self).pose == old(self).pose,
            final(self).timeline == old(self).timeline,
    {
        self.assembler.finish()
    }

    /// A block of the last packet, which begins at a frame, could not be processed. The
    /// rest of the packet is not taken in.
    pub fn stop(&mut self, first: u64)
        requires
            old(self).wf(),
            first + 256 <= u64::MAX,
        ensures
            final(self).wf(),
            final(self).assembler@ == processor::stopped(old(self).assembler@, first),
            final(self).mixer == old(self).mixer,
            final(self).pose == old(self).pose,
            final(self).timeline == old(self).timeline,
    {
        self.assembler.stop(first);
    }

    /// Whether the time of a block that begins at a frame can be told, and the time at
    /// which it is delivered.
    pub fn can_begin(&self, first: u64) -> (res: bool)
        requires
            self.wf(),
        ensures
            res == can_place(
                self.assembler@,
                self.timeline.taken(),
                self.mixer.origin,
                first,
            ),
    {
        let last: i64 = self.timeline.last_source();
        if last == i64::MAX {
            return false;
        }
        let (time, frame) = self.assembler.packet();
        if !has_time(time, frame, first) {
            return false;
        }
        let at: i64 = block_time(time, frame, first, last);
        let told: i128 = self.mixer.origin as i128 + at as i128;
        let due: i128 = told + DELIVERY_NS as i128;
        i64::MIN as i128 <= told && told <= i64::MAX as i128 && i64::MIN as i128 + READY_NS as i128
            <= due && due <= i64::MAX as i128
    }

    /// The time at which a block is placed; it is later than that of every block
    /// before it.
    pub fn begin(&mut self, first: u64) -> (at: i64)
        requires
            old(self).wf(),
            old(self).timeline.taken() < i64::MAX,
            processor::frame_time(
                old(self).assembler@.packet_time,
                old(self).assembler@.packet_frame,
                first,
            ) <= i64::MAX,
        ensures
            final(self).wf(),
            at == processor::source_time(
                old(self).assembler@.packet_time,
                old(self).assembler@.packet_frame,
                first,
                old(self).timeline.taken(),
            ),
            at > old(self).timeline.taken(),
            final(self).timeline.taken() == at,
            final(self).timeline.waiting() == old(self).timeline.waiting(),
            final(self).timeline.next() == old(self).timeline.next(),
            final(self).pose == old(self).pose,
            final(self).assembler == old(self).assembler,
            final(self).mixer == old(self).mixer,
    {
        let (time, frame) = self.assembler.packet();
        let at: i64 = block_time(time, frame, first, self.timeline.last_source());
        self.timeline.set_last_source(at);
        at
    }

    /// The next of the events that have come up to a time, in the order of their times.
    pub fn due(&mut self, at: i64) -> (res: Result<Due, DueError>)
        requires
            old(self).wf(),
        ensures
            final(self).wf(),
            final(self).pose == old(self).pose,
            final(self).assembler == old(self).assembler,
            final(self).mixer == old(self).mixer,
            final(self).timeline.taken() == old(self).timeline.taken(),
            final(self).timeline.next() == old(self).timeline.next(),
            ({
                let waiting = old(self).timeline.waiting();
                if waiting.len() == 0 || waiting[0].time > at {
                    res == Ok::<_, DueError>(Due::Ready) && final(self).timeline.waiting()
                        == waiting
                } else {
                    final(self).timeline.waiting() == waiting.drop_first() && comes_to(
                        waiting[0].item.0,
                        old(self).mixer.gain_override,
                        res,
                    )
                }
            }),
    {
        match self.timeline.due(at) {
            None => Ok(Due::Ready),
            Some(entry) => match entry.item.0 {
                Event::Gain(db) => {
                    if self.mixer.gain_override {
                        return Ok(Due::Passed);
                    }
                    match db {
                        Some(db) => Ok(Due::Gain(db)),
                        None => Err(DueError::Gain),
                    }
                },
                Event::Pose { at, snapshot, request_start, messages } => match messages {
                    None => Err(DueError::Messages),
                    Some(messages) => match at {
                        None => Err(DueError::Time),
                        Some(at) => Ok(
                            Due::Feed(Batch { at, snapshot, request_start, messages }),
                        ),
                    },
                },
            },
        }
    }
}

/// What is not asked for is as usual: -18 decibels, the mouth 6.4 millimetres above and
/// 73.6 in front of the eyes, and the source that fits. What is asked for is taken as it is.
pub proof fn processors_are_set_up_as_asked(config: Tree)
    ensures
        config.bits_at("gain_db"@) matches Some(db) ==> gain_asked(config) == db,
        config.bits_at("gain_db"@) is None ==> gain_asked(config) == 0xc032_0000_0000_0000,
        config.get("mouth_offset_m"@) is None ==> offset_asked(config) == Some(
            Vec3 { x: 0, y: 0x3f7a_36e2_eb1c_432d, z: 0xbfb2_d773_18fc_5048 },
        ),
        config.get("mouth_offset_m"@) is Some && offset_asked(config) is Some ==> {
            let v = offset_asked(config)->0;
            &&& config.items_at("mouth_offset_m"@) matches Some(list)
            &&& list.len() == 3
            &&& list[0].bits() == Some(v.x) && list[1].bits() == Some(v.y) && list[2].bits()
                == Some(v.z)
        },
        config.text_at("source_mode"@) matches Some(name) ==> mode_asked(config) == name,
        config.text_at("source_mode"@) is None ==> mode_asked(config) == "auto"@,
        setup_fault(config) is None <==> {
            let db = gain_asked(config);
            &&& db == 0 || 0x8000_0000_0000_0000 <= db <= 0xc04e_0000_0000_0000
            &&& offset_asked(config) matches Some(v)
            &&& v.x % 0x8000_0000_0000_0000 <= 0x3ff0_0000_0000_0000
            &&& v.y % 0x8000_0000_0000_0000 <= 0x3ff0_0000_0000_0000
            &&& v.z % 0x8000_0000_0000_0000 <= 0x3ff0_0000_0000_0000
            &&& mode_asked(config) == "auto"@ || mode_asked(config) == "head_offset"@ || mode_asked(
                config,
            ) == "mouth_probe"@
        },
{
    match config.get("mouth_offset_m"@) {
        Some(t) => {
            math::vectors_are_listed(t);
        },
        None => {},
    }
    pose::modes_have_their_names(mode_asked(config));
}

/// An event that is due does what it was for: a change of the gain gives its decibels,
/// unless the gain was set for good, and messages are fed as of the time of their receipt,
/// with the time of the request that they answer.
pub proof fn due_events_do_what_they_are_for(
    event: Event,
    overridden: bool,
    res: Result<Due, DueError>,
)
    requires
        comes_to(event, overridden, res),
    ensures
        event matches Event::Gain(Some(db)) ==> if overridden {
            res matches Ok(Due::Passed)
        } else {
            res matches Ok(Due::Gain(n)) && n == db
        },
        event matches Event::Gain(None) && !overridden ==> res == Err::<Due, _>(DueError::Gain),
        event matches Event::Pose {
            at: Some(at),
            snapshot,
            request_start,
            messages: Some(messages),
        } ==> (res matches Ok(Due::Feed(batch)) && batch.at == at && batch.snapshot == snapshot
            && batch.request_start == request_start && batch.messages == messages),
        event matches Event::Pose { at, snapshot, request_start, messages: None } ==> res
            == Err::<Due, _>(DueError::Messages),
        event matches Event::Pose { at: None, snapshot, request_start, messages: Some(messages) }
            ==> res == Err::<Due, _>(DueError::Time),
{
}

/// A block can be placed exactly where its time, and that of its delivery 300 milliseconds
/// later, are times.
pub proof fn blocks_can_be_placed_in_time(l: Line, taken: i64, origin: i64, first: u64)
    requires
        taken < i64::MAX,
        processor::frame_time(l.packet_time, l.packet_frame, first) <= i64::MAX,
    ensures
        ({
            let at = processor::source_time(l.packet_time, l.packet_frame, first, taken);
            can_place(l, taken, origin, first) <==> i64::MIN <= origin + at && origin + at
                + 300_000_000 <= i64::MAX && origin + at <= i64::MAX && i64::MIN <= origin + at
                + 275_000_000
        }),
{
}

} // verus!
